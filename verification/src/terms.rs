//! Search query parsing: a query is a scope word — title, album or artist —
//! followed by a space and the pattern. A string without a recognized scope
//! prefix, or without a space at all, is no query: there is no default scope.

use vstd::prelude::*;
use crate::text::str_eq;

verus! {

/// The scope and pattern of a parsed query.
pub enum Term {
    Title(String),
    Album(String),
    Artist(String),
}

/// Model of a parsed query.
pub ghost enum TermView {
    Title(Seq<char>),
    Album(Seq<char>),
    Artist(Seq<char>),
}

impl View for Term {
    type V = TermView;

    open spec fn view(&self) -> TermView {
        match self {
            Term::Title(s) => TermView::Title(s@),
            Term::Album(s) => TermView::Album(s@),
            Term::Artist(s) => TermView::Artist(s@),
        }
    }
}

/// Position of the first space, or a negative value when none occurs.
pub open spec fn first_space(s: Seq<char>) -> int
    decreases s.len(),
{
    if s.len() == 0 {
        -1
    } else if s[0] == ' ' {
        0
    } else {
        let p = first_space(s.drop_first());
        if p < 0 {
            -1
        } else {
            p + 1
        }
    }
}

/// What parsing yields: the pattern after the space, tagged with the scope
/// named before it, or nothing.
pub open spec fn query_spec(s: Seq<char>) -> Option<TermView> {
    let d = first_space(s);
    if d < 0 {
        Option::None
    } else {
        let scope = s.take(d);
        let pattern = s.skip(d + 1);
        if scope == "title"@ {
            Option::Some(TermView::Title(pattern))
        } else if scope == "album"@ {
            Option::Some(TermView::Album(pattern))
        } else if scope == "artist"@ {
            Option::Some(TermView::Artist(pattern))
        } else {
            Option::None
        }
    }
}

proof fn lemma_first_space_found(s: Seq<char>, d: int)
    requires
        0 <= d < s.len(),
        s[d] == ' ',
        forall|k: int| 0 <= k < d ==> s[k] != ' ',
    ensures
        first_space(s) == d,
    decreases s.len(),
{
    if d > 0 {
        lemma_first_space_found(s.drop_first(), d - 1);
    }
}

proof fn lemma_first_space_none(s: Seq<char>)
    requires
        forall|k: int| 0 <= k < s.len() ==> s[k] != ' ',
    ensures
        first_space(s) == -1,
    decreases s.len(),
{
    if s.len() > 0 {
        lemma_first_space_none(s.drop_first());
    }
}

/// A query as the interface accepts it.
pub struct SearchQuery {
    pub terms: Term,
}

impl SearchQuery {
    /// Parses a query string. An empty string, one without a space, or one
    /// whose scope word is not recognized yields nothing: prior search
    /// results then stay as they are.
    pub fn new(s: &str) -> (r: Option<SearchQuery>)
        ensures
            (r is Some) == (query_spec(s@) is Some),
            r matches Some(q) ==> query_spec(s@) == Some(q.terms@),
    {
        let n = s.unicode_len();
        let mut i: usize = 0;
        let mut found: bool = false;
        while i < n && !found
            invariant
                n == s@.len(),
                i <= n,
                !found ==> forall|k: int| 0 <= k < i ==> s@[k] != ' ',
                found ==> i < n && s@[i as int] == ' ' && (forall|k: int|
                    0 <= k < i ==> s@[k] != ' '),
            decreases n - i + (if found { 0int } else { 1int }),
        {
            if s.get_char(i) == ' ' {
                found = true;
            } else {
                i = i + 1;
            }
        }
        if !found {
            proof {
                lemma_first_space_none(s@);
            }
            return None;
        }
        proof {
            lemma_first_space_found(s@, i as int);
        }
        let scope = s.substring_char(0, i);
        let pattern = s.substring_char(i + 1, n);
        proof {
            assert(scope@ =~= s@.take(i as int));
            assert(pattern@ =~= s@.skip(i as int + 1));
        }
        if str_eq(scope, "title") {
            Some(SearchQuery { terms: Term::Title(pattern.to_owned()) })
        } else if str_eq(scope, "album") {
            Some(SearchQuery { terms: Term::Album(pattern.to_owned()) })
        } else if str_eq(scope, "artist") {
            Some(SearchQuery { terms: Term::Artist(pattern.to_owned()) })
        } else {
            None
        }
    }
}

} // verus!
