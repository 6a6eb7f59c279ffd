use vstd::prelude::*;
use regex::Regex;

verus! {

#[verifier::external_type_specification]
#[verifier::external_body]
pub struct ExRegex(Regex);

/// The capture groups of one match, by their view: group 0 is the whole
/// match; a group that took no part is `None`.
pub type Groups = Seq<Option<Seq<char>>>;

/// Whether `regex::Regex::new` compiles `pattern`.
pub uninterp spec fn regex_valid(pattern: Seq<char>) -> bool;

/// The groups of the leftmost-first match of `pattern` in `haystack`, as
/// `regex::Regex::captures` finds it.
pub uninterp spec fn regex_captures(pattern: Seq<char>, haystack: Seq<char>) -> Option<Groups>;

/// The groups of the last of the successive non-overlapping matches of
/// `pattern` in `haystack`, as `regex::Regex::captures_iter` yields them.
pub uninterp spec fn regex_last_captures(pattern: Seq<char>, haystack: Seq<char>) -> Option<Groups>;

/// The view of captured groups.
pub open spec fn groups_view(g: Seq<Option<String>>) -> Groups {
    g.map_values(|o: Option<String>| match o {
        Some(s) => Some(s@),
        None => None,
    })
}

/// A compiled regular expression and its pattern.
pub struct Pattern {
    re: Regex,
    text: Ghost<Seq<char>>,
}

impl View for Pattern {
    type V = Seq<char>;

    closed spec fn view(&self) -> Seq<char> {
        self.text@
    }
}

/// `regex::Regex::new`: the compiled pattern, when it compiles.
#[verifier::external_body]
pub(crate) fn compile(pattern: &str) -> (r: Option<Pattern>)
    ensures
        r is Some <==> regex_valid(pattern@),
        r matches Some(p) ==> p@ == pattern@,
{
    match Regex::new(pattern) {
        Ok(re) => Some(Pattern { re, text: Ghost(pattern@) }),
        Err(_) => None,
    }
}

impl Pattern {
    /// `regex::Regex::captures`: the groups of the first match. As the
    /// crate documents, group 0 of a match is always present.
    #[verifier::external_body]
    pub(crate) fn captures(&self, haystack: &str) -> (r: Option<Vec<Option<String>>>)
        ensures
            match r {
                Some(g) => regex_captures(self@, haystack@) == Some(groups_view(g@)) && g@.len() > 0
                    && g@[0] is Some,
                None => regex_captures(self@, haystack@) is None,
            },
    {
        self.re.captures(haystack).map(|c| c.iter().map(|m| m.map(|m| m.as_str().to_string())).collect())
    }

    /// `regex::Regex::captures_iter`, last item: the groups of the last
    /// match. As the crate documents, group 0 of a match is always present.
    #[verifier::external_body]
    pub(crate) fn last_captures(&self, haystack: &str) -> (r: Option<Vec<Option<String>>>)
        ensures
            match r {
                Some(g) => regex_last_captures(self@, haystack@) == Some(groups_view(g@)) && g@.len()
                    > 0 && g@[0] is Some,
                None => regex_last_captures(self@, haystack@) is None,
            },
    {
        self.re.captures_iter(haystack).last().map(|c| c.iter().map(|m| m.map(|m| m.as_str().to_string())).collect())
    }
}

} // verus!
