//! Navigation state for the caller's interface: tab switching and the three
//! linked library columns. Selection moves wrap around; refreshed columns
//! restart at the top.

use vstd::prelude::*;
use crate::record::{Album, Artist, Track};

verus! {

/// The ordered tab titles and which one is active.
pub struct TabsState<'a> {
    pub titles: Vec<&'a str>,
    pub index: usize,
}

impl<'a> TabsState<'a> {
    pub fn new(titles: Vec<&'a str>) -> (r: TabsState<'a>)
        ensures
            r.titles == titles,
            r.index == 0,
    {
        TabsState { titles, index: 0 }
    }

    /// Moves to the next tab, wrapping past the last.
    pub fn next(&mut self)
        requires
            old(self).titles@.len() > 0,
            old(self).index < old(self).titles@.len(),
        ensures
            final(self).titles == old(self).titles,
            final(self).index == (old(self).index + 1) % (old(self).titles@.len() as int),
    {
        let n = self.titles.len();
        self.index = (self.index + 1) % n;
    }

    /// Moves to the previous tab, wrapping before the first.
    pub fn previous(&mut self)
        requires
            old(self).titles@.len() > 0,
        ensures
            final(self).titles == old(self).titles,
            old(self).index > 0 ==> final(self).index == old(self).index - 1,
            old(self).index == 0 ==> final(self).index == old(self).titles@.len() - 1,
    {
        if self.index > 0 {
            self.index = self.index - 1;
        } else {
            self.index = self.titles.len() - 1;
        }
    }
}

/// A selectable list of owned items.
pub struct ListState<I> {
    pub items: Vec<I>,
    pub selected: usize,
}

impl<I: Clone> ListState<I> {
    /// A fresh column over copies of the given items, selecting the first.
    pub fn new(items: &[I]) -> (r: ListState<I>)
        ensures
            r.items@.len() == items@.len(),
            r.selected == 0,
            forall|k: int| 0 <= k < items@.len() ==> vstd::pervasive::cloned::<I>(
                items@[k],
                #[trigger] r.items@[k],
            ),
    {
        let mut v: Vec<I> = Vec::new();
        let mut i: usize = 0;
        while i < items.len()
            invariant
                i <= items@.len(),
                v@.len() == i,
                forall|k: int| 0 <= k < i ==> vstd::pervasive::cloned::<I>(
                    items@[k],
                    #[trigger] v@[k],
                ),
            decreases items@.len() - i,
        {
            v.push(items[i].clone());
            i = i + 1;
        }
        ListState { items: v, selected: 0 }
    }

    /// Moves the selection up, wrapping to the bottom at the top.
    pub fn select_previous(&mut self)
        requires
            old(self).items@.len() > 0,
        ensures
            final(self).items == old(self).items,
            old(self).selected > 0 ==> final(self).selected == old(self).selected - 1,
            old(self).selected == 0 ==> final(self).selected == old(self).items@.len() - 1,
    {
        if self.selected > 0 {
            self.selected = self.selected - 1;
        } else {
            self.selected = self.items.len() - 1;
        }
    }

    /// Moves the selection down, wrapping to the top at the bottom.
    pub fn select_next(&mut self)
        requires
            old(self).items@.len() > 0,
            old(self).selected < old(self).items@.len(),
        ensures
            final(self).items == old(self).items,
            final(self).selected == (old(self).selected + 1) % (old(self).items@.len() as int),
    {
        let n = self.items.len();
        self.selected = (self.selected + 1) % n;
    }
}

/// The three columns of the library view, linked by selection: the albums
/// column always shows the selected artist's albums, the tracks column the
/// selected album's tracks.
pub struct LibraryCols {
    pub artists: ListState<Artist>,
    pub albums: ListState<Album>,
    pub tracks: ListState<Track>,
    pub current_active: usize,
}

impl LibraryCols {
    /// What scrolling relies on: selections in range, columns non-empty, and
    /// every artist holding at least one album.
    pub open spec fn scrollable(self) -> bool {
        &&& self.artists.items@.len() > 0
        &&& self.artists.selected < self.artists.items@.len()
        &&& self.albums.items@.len() > 0
        &&& self.albums.selected < self.albums.items@.len()
        &&& self.tracks.items@.len() > 0
        &&& self.tracks.selected < self.tracks.items@.len()
        &&& forall|k: int|
            0 <= k < self.artists.items@.len() ==> (#[trigger] self.artists.items@[k])@.albums.len()
                > 0
    }

    /// Activates the column to the left, stopping at the first.
    pub fn switch_left(&mut self)
        ensures
            old(self).current_active > 0 ==> final(self).current_active == old(self).current_active
                - 1,
            old(self).current_active == 0 ==> final(self).current_active == 0,
            final(self).artists == old(self).artists,
            final(self).albums == old(self).albums,
            final(self).tracks == old(self).tracks,
    {
        if self.current_active > 0 {
            self.current_active = self.current_active - 1;
        }
    }

    /// Activates the column to the right, stopping at the last.
    pub fn switch_right(&mut self)
        ensures
            old(self).current_active < 2 ==> final(self).current_active == old(self).current_active
                + 1,
            old(self).current_active >= 2 ==> final(self).current_active == old(self).current_active,
            final(self).artists == old(self).artists,
            final(self).albums == old(self).albums,
            final(self).tracks == old(self).tracks,
    {
        if self.current_active < 2 {
            self.current_active = self.current_active + 1;
        }
    }

    /// Scrolls the active column up: the active column's selection moves
    /// back cyclically, and moving in the artist or album column rebuilds
    /// the columns to its right from the new selection, restarting them at
    /// the top.
    pub fn on_up(&mut self)
        requires
            old(self).scrollable(),
        ensures
            final(self).current_active == old(self).current_active,
            old(self).current_active == 0 ==> ({
                let s1 = *old(self);
                let s2 = *final(self);
                &&& s2.artists.items == s1.artists.items
                &&& (s1.artists.selected > 0 ==> s2.artists.selected == s1.artists.selected - 1)
                &&& (s1.artists.selected == 0 ==> s2.artists.selected as int
                    == s1.artists.items@.len() - 1)
                &&& s2.albums.selected == 0
                &&& s2.albums.items@.map_values(|a: Album| a@)
                    == s2.artists.items@[s2.artists.selected as int]@.albums
                &&& s2.tracks.selected == 0
                &&& s2.tracks.items@.map_values(|t: Track| t@)
                    == s2.artists.items@[s2.artists.selected as int]@.albums[0].tracks
            }),
            old(self).current_active == 1 ==> ({
                let s1 = *old(self);
                let s2 = *final(self);
                &&& s2.artists == s1.artists
                &&& s2.albums.items == s1.albums.items
                &&& (s1.albums.selected > 0 ==> s2.albums.selected == s1.albums.selected - 1)
                &&& (s1.albums.selected == 0 ==> s2.albums.selected as int
                    == s1.albums.items@.len() - 1)
                &&& s2.tracks.selected == 0
                &&& s2.tracks.items@.map_values(|t: Track| t@)
                    == s2.albums.items@[s2.albums.selected as int]@.tracks
            }),
            old(self).current_active == 2 ==> ({
                let s1 = *old(self);
                let s2 = *final(self);
                &&& s2.artists == s1.artists
                &&& s2.albums == s1.albums
                &&& s2.tracks.items == s1.tracks.items
                &&& (s1.tracks.selected > 0 ==> s2.tracks.selected == s1.tracks.selected - 1)
                &&& (s1.tracks.selected == 0 ==> s2.tracks.selected as int
                    == s1.tracks.items@.len() - 1)
            }),
            old(self).current_active >= 3 ==> *final(self) == *old(self),
    {
        if self.current_active == 0 {
            self.artists.select_previous();
            self.refresh_from_artist();
        } else if self.current_active == 1 {
            self.albums.select_previous();
            self.refresh_tracks_from_album();
        } else if self.current_active == 2 {
            self.tracks.select_previous();
        }
    }

    /// Scrolls the active column down: the active column's selection moves
    /// forward cyclically, and moving in the artist or album column rebuilds
    /// the columns to its right from the new selection, restarting them at
    /// the top.
    pub fn on_down(&mut self)
        requires
            old(self).scrollable(),
        ensures
            final(self).current_active == old(self).current_active,
            old(self).current_active == 0 ==> ({
                let s1 = *old(self);
                let s2 = *final(self);
                &&& s2.artists.items == s1.artists.items
                &&& s2.artists.selected as int == (s1.artists.selected + 1) % (
                s1.artists.items@.len() as int)
                &&& s2.albums.selected == 0
                &&& s2.albums.items@.map_values(|a: Album| a@)
                    == s2.artists.items@[s2.artists.selected as int]@.albums
                &&& s2.tracks.selected == 0
                &&& s2.tracks.items@.map_values(|t: Track| t@)
                    == s2.artists.items@[s2.artists.selected as int]@.albums[0].tracks
            }),
            old(self).current_active == 1 ==> ({
                let s1 = *old(self);
                let s2 = *final(self);
                &&& s2.artists == s1.artists
                &&& s2.albums.items == s1.albums.items
                &&& s2.albums.selected as int == (s1.albums.selected + 1) % (
                s1.albums.items@.len() as int)
                &&& s2.tracks.selected == 0
                &&& s2.tracks.items@.map_values(|t: Track| t@)
                    == s2.albums.items@[s2.albums.selected as int]@.tracks
            }),
            old(self).current_active == 2 ==> ({
                let s1 = *old(self);
                let s2 = *final(self);
                &&& s2.artists == s1.artists
                &&& s2.albums == s1.albums
                &&& s2.tracks.items == s1.tracks.items
                &&& s2.tracks.selected as int == (s1.tracks.selected + 1) % (
                s1.tracks.items@.len() as int)
            }),
            old(self).current_active >= 3 ==> *final(self) == *old(self),
    {
        if self.current_active == 0 {
            self.artists.select_next();
            self.refresh_from_artist();
        } else if self.current_active == 1 {
            self.albums.select_next();
            self.refresh_tracks_from_album();
        } else if self.current_active == 2 {
            self.tracks.select_next();
        }
    }

    /// Rebuilds the album and track columns from the selected artist, both
    /// restarted at the top.
    fn refresh_from_artist(&mut self)
        requires
            old(self).artists.selected < old(self).artists.items@.len(),
            old(self).artists.items@[old(self).artists.selected as int]@.albums.len() > 0,
        ensures
            final(self).artists == old(self).artists,
            final(self).current_active == old(self).current_active,
            final(self).albums.selected == 0,
            final(self).albums.items@.map_values(|a: Album| a@) == old(self).artists.items@[old(
                self,
            ).artists.selected as int]@.albums,
            final(self).tracks.selected == 0,
            final(self).tracks.items@.map_values(|t: Track| t@) == old(self).artists.items@[old(
                self,
            ).artists.selected as int]@.albums[0].tracks,
    {
        let ghost sel = self.artists.selected as int;
        self.albums = ListState::new(self.artists.items[self.artists.selected].albums.as_slice());
        proof {
            assert forall|k: int|
                0 <= k < self.albums.items@.len() implies (#[trigger] self.albums.items@[k])@
                == self.artists.items@[sel]@.albums[k] by {
                crate::record::lemma_cloned_album_view(
                    self.artists.items@[sel].albums@[k],
                    self.albums.items@[k],
                );
            }
            assert(self.albums.items@.map_values(|a: Album| a@) =~= self.artists.items@[sel]@.albums);
            assert(self.albums.items@[0]@ == self.artists.items@[sel]@.albums[0]);
        }
        let ghost alb0 = self.albums.items@[0]@;
        self.tracks = ListState::new(self.albums.items[self.albums.selected].tracks.as_slice());
        proof {
            assert forall|k: int|
                0 <= k < self.tracks.items@.len() implies (#[trigger] self.tracks.items@[k])@
                == alb0.tracks[k] by {
                crate::record::lemma_cloned_track_view(
                    self.albums.items@[0].tracks@[k],
                    self.tracks.items@[k],
                );
            }
            assert(self.tracks.items@.map_values(|t: Track| t@) =~= alb0.tracks);
        }
    }

    /// Rebuilds the track column from the selected album, restarted at the
    /// top.
    fn refresh_tracks_from_album(&mut self)
        requires
            old(self).albums.selected < old(self).albums.items@.len(),
        ensures
            final(self).artists == old(self).artists,
            final(self).albums == old(self).albums,
            final(self).current_active == old(self).current_active,
            final(self).tracks.selected == 0,
            final(self).tracks.items@.map_values(|t: Track| t@) == old(self).albums.items@[old(
                self,
            ).albums.selected as int]@.tracks,
    {
        let ghost asel = self.albums.selected as int;
        self.tracks = ListState::new(self.albums.items[self.albums.selected].tracks.as_slice());
        proof {
            assert forall|k: int|
                0 <= k < self.tracks.items@.len() implies (#[trigger] self.tracks.items@[k])@
                == self.albums.items@[asel]@.tracks[k] by {
                crate::record::lemma_cloned_track_view(
                    self.albums.items@[asel].tracks@[k],
                    self.tracks.items@[k],
                );
            }
            assert(self.tracks.items@.map_values(|t: Track| t@) =~= self.albums.items@[asel]@.tracks);
        }
    }
}

} // verus!
