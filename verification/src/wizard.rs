//! Decisions of the wizard's popups: the fuzzy filter of long option lists
//! and the strength rating shown while a password is typed.

use vstd::prelude::*;

use crate::sort::{law_sort_by_sorts, lemma_insert_by_at, sort_by, sorted_by, strict_order, string_views};
use crate::text::{chars_eq, chars_of, chars_to_string, extend_str};

verus! {

/// The score `sublime_fuzzy::best_match(query, target)` gives, `None` when
/// the query does not match.
pub uninterp spec fn fuzzy_score(query: Seq<char>, target: Seq<char>) -> Option<isize>;

/// `sublime_fuzzy::best_match(query, target).map(|m| m.score())`: claims
/// only that the result is the one named `fuzzy_score` of the two strings.
#[verifier::external_body]
fn best_match_score(query: &str, target: &str) -> (r: Option<isize>)
    ensures
        r == fuzzy_score(query@, target@),
{
    sublime_fuzzy::best_match(query, target).as_ref().map(sublime_fuzzy::Match::score)
}

/// Higher score first.
pub open spec fn higher() -> spec_fn((isize, Seq<char>), (isize, Seq<char>)) -> bool {
    |a: (isize, Seq<char>), b: (isize, Seq<char>)| a.0 > b.0
}

/// The matching items with their scores, in list order.
pub open spec fn scored(items: Seq<Seq<char>>, scores: Seq<Option<isize>>) -> Seq<
    (isize, Seq<char>),
>
    decreases items.len(),
{
    if items.len() == 0 || scores.len() != items.len() {
        seq![]
    } else {
        let rest = scored(items.drop_last(), scores.drop_last());
        match scores.last() {
            Some(s) => rest.push((s, items.last())),
            None => rest,
        }
    }
}

/// The matching items, best score first, list order among equal scores.
pub open spec fn ranked(items: Seq<Seq<char>>, scores: Seq<Option<isize>>) -> Seq<Seq<char>> {
    sort_by(scored(items, scores), higher()).map_values(|p: (isize, Seq<char>)| p.1)
}

/// Matches are listed best first: none after one with a lower score, and
/// each matching item is listed as often as it was given.
pub proof fn law_best_matches_first(items: Seq<Seq<char>>, scores: Seq<Option<isize>>)
    ensures
        sorted_by(sort_by(scored(items, scores), higher()), higher()),
        sort_by(scored(items, scores), higher()).to_multiset() == scored(items, scores).to_multiset(),
{
    assert(strict_order(higher()));
    law_sort_by_sorts(scored(items, scores), higher());
}

/// Order the items that matched (`scores[i]` is `items[i]`'s score, `None`
/// for no match): best first, stable among equals.
pub fn rank_matches(items: &Vec<String>, scores: &Vec<Option<isize>>) -> (r: Vec<String>)
    requires
        items.len() == scores.len(),
    ensures
        string_views(r@) == ranked(string_views(items@), scores@),
{
    let ghost all = scored(string_views(items@), scores@);
    let mut out: Vec<(isize, String)> = Vec::new();
    let mut i: usize = 0;
    while i < items.len()
        invariant
            i <= items.len() == scores.len(),
            out@.map_values(|p: (isize, String)| (p.0, p.1@)) == sort_by(
                scored(string_views(items@).take(i as int), scores@.take(i as int)),
                higher(),
            ),
        decreases items.len() - i,
    {
        assert(string_views(items@).take(i + 1).drop_last() == string_views(items@).take(
            i as int,
        ));
        assert(scores@.take(i + 1).drop_last() == scores@.take(i as int));
        let ghost rest = scored(string_views(items@).take(i as int), scores@.take(i as int));
        match scores[i] {
            Some(s) => {
                let x = (s, items[i].as_str().to_string());
                let ghost xv = (s, x.1@);
                assert(x.1@ == string_views(items@).take(i + 1).last());
                assert(scored(string_views(items@).take(i + 1), scores@.take(i + 1)) == rest.push(xv));
                assert(rest.push(xv).drop_last() =~= rest);
                let ghost ov = out@.map_values(|p: (isize, String)| (p.0, p.1@));
                let mut j: usize = 0;
                while j < out.len() && !(s > out[j].0)
                    invariant
                        j <= out.len(),
                        ov == out@.map_values(|p: (isize, String)| (p.0, p.1@)),
                        xv.0 == s,
                        forall|k: int| 0 <= k < j ==> !(higher())(xv, #[trigger] ov[k]),
                    decreases out.len() - j,
                {
                    j = j + 1;
                }
                proof {
                    lemma_insert_by_at(ov, xv, higher(), j as int);
                }
                out.insert(j, x);
                assert(out@.map_values(|p: (isize, String)| (p.0, p.1@)) =~= ov.insert(
                    j as int,
                    xv,
                ));
            },
            None => {
                assert(scored(string_views(items@).take(i + 1), scores@.take(i + 1)) == rest);
            },
        }
        i = i + 1;
    }
    assert(string_views(items@).take(items.len() as int) == string_views(items@));
    assert(scores@.take(items.len() as int) == scores@);
    let ghost sorted = out@.map_values(|p: (isize, String)| (p.0, p.1@));
    let mut r: Vec<String> = Vec::new();
    let mut k: usize = 0;
    while k < out.len()
        invariant
            k <= out.len(),
            sorted == out@.map_values(|p: (isize, String)| (p.0, p.1@)),
            string_views(r@) == sorted.take(k as int).map_values(|p: (isize, Seq<char>)| p.1),
        decreases out.len() - k,
    {
        let s = out[k].1.as_str().to_string();
        let ghost before = r@;
        r.push(s);
        assert(string_views(r@) =~= string_views(before).push(sorted[k as int].1));
        assert(sorted.take(k + 1).map_values(|p: (isize, Seq<char>)| p.1) =~= sorted.take(
            k as int,
        ).map_values(|p: (isize, Seq<char>)| p.1).push(sorted[k as int].1));
        k = k + 1;
    }
    assert(sorted.take(out.len() as int) == sorted);
    r
}

/// The options a typed filter leaves of a long list: all of them for an
/// empty filter, else the fuzzy matches, best first.
pub fn fuzzy_filter(items: &Vec<String>, filter: &str) -> (r: Vec<String>)
    ensures
        filter@.len() == 0 ==> string_views(r@) == string_views(items@),
        filter@.len() > 0 ==> string_views(r@) == ranked(
            string_views(items@),
            string_views(items@).map_values(|s: Seq<char>| fuzzy_score(filter@, s)),
        ),
{
    if filter.is_empty() {
        let mut r: Vec<String> = Vec::new();
        let mut i: usize = 0;
        while i < items.len()
            invariant
                i <= items.len(),
                string_views(r@) == string_views(items@).take(i as int),
            decreases items.len() - i,
        {
            let s = items[i].as_str().to_string();
            let ghost before = r@;
            r.push(s);
            assert(string_views(r@) =~= string_views(before).push(items@[i as int]@));
            assert(string_views(items@).take(i + 1) =~= string_views(items@).take(i as int).push(
                items@[i as int]@,
            ));
            i = i + 1;
        }
        assert(string_views(items@).take(items.len() as int) == string_views(items@));
        return r;
    }
    let mut scores: Vec<Option<isize>> = Vec::new();
    let mut i: usize = 0;
    while i < items.len()
        invariant
            i <= items.len(),
            scores@ == string_views(items@).take(i as int).map_values(
                |s: Seq<char>| fuzzy_score(filter@, s),
            ),
        decreases items.len() - i,
    {
        let s = best_match_score(filter, items[i].as_str());
        scores.push(s);
        assert(string_views(items@).take(i + 1).map_values(|s: Seq<char>| fuzzy_score(filter@, s))
            =~= string_views(items@).take(i as int).map_values(
            |s: Seq<char>| fuzzy_score(filter@, s),
        ).push(fuzzy_score(filter@, items@[i as int]@)));
        i = i + 1;
    }
    assert(string_views(items@).take(items.len() as int) == string_views(items@));
    rank_matches(items, &scores)
}

/// `zxcvbn::zxcvbn(password, &[])`: its score, the first suggestion of its
/// feedback if any, and its estimate of the time an online attack at ten
/// guesses a second takes, as it displays it. Claims only that the score
/// is at most 4, as the crate's `Score` type allows. The report is not a
/// function of the password alone: the crate rates years and dates
/// against the current year, so nothing is claimed of the other values.
/// The crate returns early for an empty password, which is never asked
/// here.
#[verifier::external_body]
fn assess(password: &str) -> (r: (u8, Option<String>, String))
    requires
        password@.len() > 0,
    ensures
        r.0 <= 4,
{
    let entropy = zxcvbn::zxcvbn(password, &[]);
    let score = u8::from(entropy.score());
    let suggestion = entropy
        .feedback()
        .map(zxcvbn::feedback::Feedback::suggestions)
        .and_then(<[zxcvbn::feedback::Suggestion]>::first)
        .map(ToString::to_string);
    let crack = entropy.crack_times().online_no_throttling_10_per_second().to_string();
    (score, suggestion, crack)
}

/// The strength rating of a password as the popup shows it.
#[derive(Debug)]
pub struct PasswordStrength {
    /// 0 to 4; -1 for an empty password, which hides the rating.
    pub score: i32,
    pub label: String,
    pub hint: String,
}

/// The word for a score.
pub open spec fn strength_word(score: u8) -> Seq<char> {
    if score == 0 {
        "Very weak"@
    } else if score == 1 {
        "Weak"@
    } else if score == 2 {
        "Fair"@
    } else if score == 3 {
        "Strong"@
    } else {
        "Very strong"@
    }
}

/// The hint under the rating: the first suggestion, or else the time it
/// would take to crack.
pub open spec fn strength_hint(suggestion: Option<Seq<char>>, crack_time: Seq<char>) -> Seq<char> {
    match suggestion {
        Some(s) => s,
        None => seq!['~'] + crack_time + " to crack"@,
    }
}

/// The rating given what the estimator reported: a pure function of its
/// three results.
pub fn rate_password(score: u8, suggestion: Option<String>, crack_time: &str) -> (r: PasswordStrength)
    ensures
        r.score == score as i32,
        r.label@ == strength_word(score),
        r.hint@ == strength_hint(
            match suggestion {
                Some(s) => Some(s@),
                None => None,
            },
            crack_time@,
        ),
{
    let label = if score == 0 {
        "Very weak"
    } else if score == 1 {
        "Weak"
    } else if score == 2 {
        "Fair"
    } else if score == 3 {
        "Strong"
    } else {
        "Very strong"
    };
    let hint = match suggestion {
        Some(s) => s,
        None => {
            let mut h: Vec<char> = Vec::new();
            h.push('~');
            extend_str(&mut h, crack_time);
            extend_str(&mut h, " to crack");
            chars_to_string(&h)
        },
    };
    PasswordStrength { score: score as i32, label: label.to_string(), hint }
}

/// Whether `r` is the rating [`rate_password`] gives for some report of
/// the estimator: a score of at most 4, a suggestion and a crack time.
pub open spec fn rates_some_report(r: PasswordStrength) -> bool {
    exists|score: u8, suggestion: Option<Seq<char>>, crack: Seq<char>|
        score <= 4 && r.score == score as i32 && r.label@ == strength_word(score) && #[trigger] r.hint@
            == strength_hint(suggestion, crack)
}

/// Rate a password as it is typed: nothing for an empty one (score -1,
/// no label, no hint), else the rating of what the estimator reported
/// (see [`rate_password`]), whatever that was.
pub fn password_strength(value: &str) -> (r: PasswordStrength)
    ensures
        value@.len() == 0 ==> r.score == -1 && r.label@.len() == 0 && r.hint@.len() == 0,
        value@.len() > 0 ==> 0 <= r.score <= 4 && rates_some_report(r),
{
    if value.is_empty() {
        return PasswordStrength { score: -1, label: String::new(), hint: String::new() };
    }
    let (score, suggestion, crack) = assess(value);
    let ghost sv = match &suggestion {
        Some(s) => Some(s@),
        None => None,
    };
    let r = rate_password(score, suggestion, crack.as_str());
    assert(r.hint@ == strength_hint(sv, crack@));
    r
}

/// The inputs whose edits are rated.
pub fn is_password_key(key: &str) -> (r: bool)
    ensures
        r == (key@ == "root_password"@ || key@ == "encryption_password"@ || key@
            == "user_password"@),
{
    let k = chars_of(key);
    chars_eq(&k, &chars_of("root_password")) || chars_eq(&k, &chars_of("encryption_password"))
        || chars_eq(&k, &chars_of("user_password"))
}

} // verus!
