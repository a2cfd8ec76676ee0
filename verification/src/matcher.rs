//! Finds the story numbers that a commit summary refers to.
//!
//! The search itself is done by the `regex` crate. What this module adds, and
//! proves, is how the captured pieces become story numbers: the letters are
//! upper-cased, joined to the digits with a hyphen, and each story number is
//! reported once, in the order in which it first occurs.

use vstd::prelude::*;
use crate::text::{lemma_upper_text, to_upper_text, upper_char, upper_text};

verus! {

/// The scheme by which story numbers are recognised in a summary.
#[derive(Clone, Copy, Debug, PartialEq, Eq, Structural)]
pub enum Matcher {
    /// One of the letters `s` and `d`, in either case, optional whitespace
    /// and hyphens, then five digits: `s-10345`, `D 10345`, `S - 10345`.
    V1,
    /// One or more letters, optional whitespace and hyphens, then one or
    /// more digits: `SO-123`, `VEN-444`.
    Jira,
}

/// The groups of one match: the whole match first, then one entry for each
/// pair of parentheses of the pattern, `None` where that group took no part.
pub type Groups = Seq<Option<Seq<char>>>;

/// The pattern of a scheme, as text.
pub open spec fn pattern_text(matcher: Matcher) -> Seq<char> {
    match matcher {
        Matcher::V1 => r"([sdSD])[\s\-]*(\d{5})"@,
        Matcher::Jira => r"([A-Za-z]+)[\s\-]*(\d+)"@,
    }
}

/// The name of a scheme, as the command line spells it.
pub open spec fn matcher_name(matcher: Matcher) -> Seq<char> {
    match matcher {
        Matcher::V1 => "v1"@,
        Matcher::Jira => "jira"@,
    }
}

/// The scheme that a name stands for, if it stands for one.
pub open spec fn matcher_named(name: Seq<char>) -> Option<Matcher> {
    if name == matcher_name(Matcher::V1) {
        Some(Matcher::V1)
    } else if name == matcher_name(Matcher::Jira) {
        Some(Matcher::Jira)
    } else {
        None
    }
}

/// What the `regex` crate finds when it searches `text` for `pattern`: `None`
/// if it refuses the pattern, else the groups of each match, the matches in
/// the order in which a search from the left meets them, none overlapping
/// another.
pub uninterp spec fn regex_captures(pattern: Seq<char>, text: Seq<char>) -> Option<Seq<Groups>>;

/// Trusted: compiles `pattern` with `regex::Regex::new` and walks
/// `Regex::captures_iter` over `text`. The result is `None` if the pattern
/// does not compile. Otherwise it holds, for each match that the iterator
/// yields, what `Captures::iter` yields for it: the text of every group,
/// group 0 included. That result is `regex_captures`.
#[verifier::external_body]
fn captured_groups(pattern: &str, text: &str) -> (found: Option<Vec<Vec<Option<String>>>>)
    ensures
        found.deep_view() == regex_captures(pattern@, text@),
{
    let regex = regex::Regex::new(pattern).ok()?;
    Some(
        regex.captures_iter(text).map(
            |captures| captures.iter().map(|group| group.map(|m| m.as_str().to_string())).collect(),
        ).collect(),
    )
}

/// The story number that one match stands for: the letters of group 1 in
/// upper case, a hyphen, and the digits of group 2 as they were found. A match
/// that lacks either group stands for none.
pub open spec fn identifier_of(groups: Groups) -> Option<Seq<char>> {
    if groups.len() >= 3 && groups[1] is Some && groups[2] is Some {
        Some(upper_text(groups[1]->0) + seq!['-'] + groups[2]->0)
    } else {
        None
    }
}

/// The story numbers of a sequence of matches: each one once, in the order in
/// which it first occurs.
pub open spec fn identifiers_of(captures: Seq<Groups>) -> Seq<Seq<char>>
    decreases captures.len(),
{
    if captures.len() == 0 {
        Seq::empty()
    } else {
        let earlier = identifiers_of(captures.drop_last());
        match identifier_of(captures.last()) {
            Some(id) => if earlier.contains(id) {
                earlier
            } else {
                earlier.push(id)
            },
            None => earlier,
        }
    }
}

/// The story numbers that a summary refers to under a scheme.
pub open spec fn story_numbers_of(summary: Seq<char>, matcher: Matcher) -> Seq<Seq<char>> {
    match regex_captures(pattern_text(matcher), summary) {
        Some(captures) => identifiers_of(captures),
        None => Seq::empty(),
    }
}

impl Matcher {
    /// The scheme of that name: `"v1"` or `"jira"`. Any other name is no
    /// scheme.
    pub fn from_name(name: &str) -> (found: Option<Matcher>)
        ensures
            found == matcher_named(name@),
    {
        if same_text(name, "v1") {
            Some(Matcher::V1)
        } else if same_text(name, "jira") {
            Some(Matcher::Jira)
        } else {
            None
        }
    }

    /// The name of the scheme.
    pub fn name(&self) -> (name: &'static str)
        ensures
            name@ == matcher_name(*self),
    {
        match self {
            Matcher::V1 => "v1",
            Matcher::Jira => "jira",
        }
    }

    /// The pattern that the scheme searches for.
    pub fn pattern(&self) -> (pattern: &'static str)
        ensures
            pattern@ == pattern_text(*self),
    {
        match self {
            Matcher::V1 => r"([sdSD])[\s\-]*(\d{5})",
            Matcher::Jira => r"([A-Za-z]+)[\s\-]*(\d+)",
        }
    }
}

/// Whether `id` is one of `list`.
pub fn contains_text(list: &Vec<String>, id: &String) -> (found: bool)
    ensures
        found == list.deep_view().contains(id@),
{
    let mut i: usize = 0;
    while i < list.len()
        invariant
            i <= list.len(),
            forall|k: int| 0 <= k < i ==> list.deep_view()[k] != id@,
        decreases list.len() - i,
    {
        if list[i] == *id {
            assert(list.deep_view()[i as int] == id@);
            return true;
        }
        i += 1;
    }
    false
}

/// The story number of one match, if the match holds both of its groups.
pub fn story_number_of_groups(groups: &Vec<Option<String>>) -> (id: Option<String>)
    ensures
        id.deep_view() == identifier_of(groups.deep_view()),
{
    if groups.len() < 3 {
        return None;
    }
    match (&groups[1], &groups[2]) {
        (Some(letters), Some(digits)) => {
            let mut id = to_upper_text(letters.as_str());
            id.push('-');
            id.append(digits.as_str());
            assert(groups.deep_view()[1] == Some(letters@));
            assert(groups.deep_view()[2] == Some(digits@));
            assert(id@ =~= upper_text(letters@) + seq!['-'] + digits@);
            Some(id)
        },
        _ => {
            assert(groups.deep_view()[1] is None || groups.deep_view()[2] is None);
            None
        },
    }
}

/// Turns the matches of a search into story numbers: each match that holds
/// its letters and its digits gives one, and a story number that was given
/// before is not given again.
pub fn story_numbers_from_captures(captures: &Vec<Vec<Option<String>>>) -> (ids: Vec<String>)
    ensures
        ids.deep_view() == identifiers_of(captures.deep_view()),
{
    let mut ids: Vec<String> = Vec::new();
    let mut i: usize = 0;
    assert(captures.deep_view().take(0) =~= Seq::empty());
    assert(ids.deep_view() =~= Seq::empty());
    while i < captures.len()
        invariant
            i <= captures.len(),
            ids.deep_view() == identifiers_of(captures.deep_view().take(i as int)),
        decreases captures.len() - i,
    {
        let ghost before = ids.deep_view();
        let ghost upto = captures.deep_view().take(i as int + 1);
        assert(upto.drop_last() =~= captures.deep_view().take(i as int));
        assert(upto.last() == captures[i as int].deep_view());
        match story_number_of_groups(&captures[i]) {
            Some(id) => {
                if !contains_text(&ids, &id) {
                    ids.push(id);
                    assert(ids.deep_view() =~= before.push(id@));
                }
            },
            None => {},
        }
        i += 1;
    }
    assert(captures.deep_view().take(i as int) =~= captures.deep_view());
    ids
}

/// The story numbers that `summary` refers to under `matcher`, each once, in
/// the order in which they first occur. A summary that refers to none gives
/// an empty list.
pub fn get_story_numbers(summary: &str, matcher: Matcher) -> (ids: Vec<String>)
    ensures
        ids.deep_view() == story_numbers_of(summary@, matcher),
{
    match captured_groups(matcher.pattern(), summary) {
        Some(captures) => story_numbers_from_captures(&captures),
        None => {
            let none: Vec<String> = Vec::new();
            assert(none.deep_view() =~= Seq::empty());
            none
        },
    }
}

/// Whether two texts hold the same characters.
pub fn same_text(a: &str, b: &str) -> (same: bool)
    ensures
        same == (a@ == b@),
{
    a.to_owned() == b.to_owned()
}

/// The story number of a match depends on nothing but the letters and the
/// digits that were captured, and on the letters only up to their case: what
/// stands between them, and whether a letter was written small or large, makes
/// no difference.
pub proof fn lemma_identifier_is_normalized(first: Groups, second: Groups)
    requires
        identifier_of(first) is Some,
        identifier_of(second) is Some,
        upper_text(first[1]->0) == upper_text(second[1]->0),
        first[2] == second[2],
    ensures
        identifier_of(first) == identifier_of(second),
{
}

/// A story number starts with the captured letters in upper case, none of
/// them a lower-case ASCII letter, followed by a hyphen and the captured
/// digits.
pub proof fn lemma_identifier_shape(groups: Groups)
    requires
        identifier_of(groups) is Some,
    ensures
        identifier_of(groups)->0.len() == groups[1]->0.len() + 1 + groups[2]->0.len(),
        forall|i: int|
            0 <= i < groups[1]->0.len() ==> (#[trigger] identifier_of(groups)->0[i]) == upper_char(
                groups[1]->0[i],
            ) && !('a' <= identifier_of(groups)->0[i] && identifier_of(groups)->0[i] <= 'z'),
        identifier_of(groups)->0[groups[1]->0.len() as int] == '-',
        forall|i: int|
            0 <= i < groups[2]->0.len() ==> (#[trigger] identifier_of(groups)->0[groups[1]->0.len()
                + 1 + i]) == groups[2]->0[i],
{
    lemma_upper_text(groups[1]->0);
}

/// A story number is reported exactly if some match stands for it.
pub proof fn lemma_identifiers_complete(captures: Seq<Groups>, id: Seq<char>)
    ensures
        identifiers_of(captures).contains(id) <==> exists|k: int|
            0 <= k < captures.len() && identifier_of(#[trigger] captures[k]) == Some(id),
    decreases captures.len(),
{
    if captures.len() > 0 {
        let shorter = captures.drop_last();
        let earlier = identifiers_of(shorter);
        lemma_identifiers_complete(shorter, id);
        if identifiers_of(captures).contains(id) {
            if earlier.contains(id) {
                let k = choose|k: int|
                    0 <= k < shorter.len() && identifier_of(#[trigger] shorter[k]) == Some(id);
                assert(captures[k] == shorter[k]);
            } else {
                let at = choose|i: int|
                    0 <= i < identifiers_of(captures).len() && identifiers_of(captures)[i] == id;
                if at < earlier.len() {
                    assert(earlier[at] == id);
                }
                assert(identifier_of(captures[captures.len() - 1]) == Some(id));
            }
        }
        if exists|k: int| 0 <= k < captures.len() && identifier_of(#[trigger] captures[k]) == Some(id) {
            let k = choose|k: int|
                0 <= k < captures.len() && identifier_of(#[trigger] captures[k]) == Some(id);
            if k < shorter.len() {
                assert(shorter[k] == captures[k]);
                assert(earlier.contains(id));
                let at = choose|i: int| 0 <= i < earlier.len() && earlier[i] == id;
                assert(identifiers_of(captures)[at] == id);
            } else {
                if earlier.contains(id) {
                } else {
                    assert(identifiers_of(captures) == earlier.push(id));
                    assert(identifiers_of(captures)[earlier.len() as int] == id);
                }
            }
        }
    }
}

/// No story number is reported twice, and there are never more story numbers
/// than matches.
pub proof fn lemma_identifiers_distinct(captures: Seq<Groups>)
    ensures
        identifiers_of(captures).no_duplicates(),
        identifiers_of(captures).len() <= captures.len(),
    decreases captures.len(),
{
    if captures.len() > 0 {
        lemma_identifiers_distinct(captures.drop_last());
    }
}

/// A summary in which the search finds nothing refers to no story.
pub proof fn lemma_no_match_no_story(summary: Seq<char>, matcher: Matcher)
    requires
        regex_captures(pattern_text(matcher), summary) matches Some(captures) ==> captures.len()
            == 0,
    ensures
        story_numbers_of(summary, matcher) == Seq::<Seq<char>>::empty(),
{
}

/// The story numbers of a summary are distinct, and each is the story number
/// of a match that the search found.
pub proof fn lemma_story_numbers_are_a_set(summary: Seq<char>, matcher: Matcher)
    ensures
        story_numbers_of(summary, matcher).no_duplicates(),
        forall|i: int|
            0 <= i < story_numbers_of(summary, matcher).len() ==> regex_captures(
                pattern_text(matcher),
                summary,
            ) is Some && exists|k: int|
                0 <= k < regex_captures(pattern_text(matcher), summary)->0.len() && identifier_of(
                    #[trigger] regex_captures(pattern_text(matcher), summary)->0[k],
                ) == Some(#[trigger] story_numbers_of(summary, matcher)[i]),
{
    match regex_captures(pattern_text(matcher), summary) {
        Some(captures) => {
            lemma_identifiers_distinct(captures);
            assert forall|i: int| 0 <= i < identifiers_of(captures).len() implies exists|k: int|
                0 <= k < captures.len() && identifier_of(#[trigger] captures[k]) == Some(
                    #[trigger] identifiers_of(captures)[i],
                ) by {
                lemma_identifiers_complete(captures, identifiers_of(captures)[i]);
            }
        },
        None => {},
    }
}

} // verus!
