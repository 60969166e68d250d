//! Duration texts: the machine form `PT..H..M..S` and the human form
//! `"Xm Ys"` / `"Xs"`.

use vstd::prelude::*;
use vstd::pervasive::unreached;
use crate::text::{
    chars_of, int_text, is_digit, is_whitespace, lemma_nat_text_numeral, lemma_trim_end_one,
    lemma_words_first, lemma_words_skip, nat_text, numeral_i64, numeral_value, parse_numeral,
    push_int, split_words, string_of, trim_end, trim_end_chars, words,
};

verus! {

/// The pattern that finds the hour, minute and second fields of a machine
/// duration. A match begins at a `PT`; behind it may stand digits and `H`, then
/// digits and `M`, then digits and `S`, in this order and each of them optional.
/// Groups 1 to 3 hold the digits of the three fields.
pub const DURATION_PATTERN: &'static str = "PT(?:(\\d+)H)?(?:(\\d+)M)?(?:(\\d+)S)?";

/// What the `regex` crate captures for the leftmost match of `pattern` in
/// `haystack`: one entry per capture group, group 0 being the whole match,
/// an entry being `None` where the group took no part in the match.
/// `None` where nothing matches or `pattern` does not compile.
pub uninterp spec fn regex_captures(pattern: Seq<char>, haystack: Seq<char>) -> Option<
    Seq<Option<Seq<char>>>,
>;

/// The texts of a list of optional strings.
pub open spec fn group_views(groups: Seq<Option<String>>) -> Seq<Option<Seq<char>>> {
    Seq::new(
        groups.len(),
        |i: int|
            match groups[i] {
                Some(text) => Some(text@),
                None => None,
            },
    )
}

/// The texts of a capture result.
pub open spec fn captures_view(captures: Option<Vec<Option<String>>>) -> Option<
    Seq<Option<Seq<char>>>,
> {
    match captures {
        Some(groups) => Some(group_views(groups@)),
        None => None,
    }
}

/// Runs `regex::Regex::new` on `pattern`, `Regex::captures` on `haystack`, and
/// copies out the text of every group with `Captures::iter` and
/// `Match::as_str`. Trusted: the result is the one that the crate computes for
/// these two texts, nothing more is claimed of it.
#[verifier::external_body]
fn capture_groups(pattern: &str, haystack: &str) -> (captures: Option<Vec<Option<String>>>)
    ensures
        captures_view(captures) == regex_captures(pattern@, haystack@),
{
    let re = regex::Regex::new(pattern).ok()?;
    let caps = re.captures(haystack)?;
    Some(caps.iter().map(|m| m.map(|m| m.as_str().to_string())).collect())
}

/// The hour, minute and second counts of a duration.
#[derive(Clone, Copy, Debug, PartialEq, Eq)]
pub struct DurationFields {
    pub hours: i64,
    pub minutes: i64,
    pub seconds: i64,
}

/// The text of group `index`, if the match has such a group and it took part.
pub open spec fn group_text(captures: Option<Seq<Option<Seq<char>>>>, index: int) -> Option<
    Seq<char>,
> {
    match captures {
        Some(groups) => if 0 <= index < groups.len() {
            groups[index]
        } else {
            None
        },
        None => None,
    }
}

/// The count that a field stands for: zero where the field is absent, the
/// numeral's value where it fits an `i64`, and `None` otherwise.
pub open spec fn field_value(text: Option<Seq<char>>) -> Option<i64> {
    match text {
        Some(digits) => numeral_i64(digits),
        None => Some(0i64),
    }
}

/// The three counts of a capture result; `None` where a field that is present
/// cannot be read as an `i64`.
pub open spec fn captured_fields(captures: Option<Seq<Option<Seq<char>>>>) -> Option<
    DurationFields,
> {
    let hours = field_value(group_text(captures, 1));
    let minutes = field_value(group_text(captures, 2));
    let seconds = field_value(group_text(captures, 3));
    if hours is Some && minutes is Some && seconds is Some {
        Some(
            DurationFields {
                hours: hours.unwrap(),
                minutes: minutes.unwrap(),
                seconds: seconds.unwrap(),
            },
        )
    } else {
        None
    }
}

/// Minutes after the hours have been folded in.
pub open spec fn total_minutes(hours: i64, minutes: i64) -> int {
    if hours > 0 {
        minutes + 60 * hours
    } else {
        minutes as int
    }
}

/// The human form: `"{minutes}m {seconds}s"` where the folded minutes are
/// positive, `"{seconds}s"` otherwise.
pub open spec fn human_duration_text(hours: i64, minutes: i64, seconds: i64) -> Seq<char> {
    let total = total_minutes(hours, minutes);
    if total > 0 {
        int_text(total) + seq!['m', ' '] + int_text(seconds as int) + seq!['s']
    } else {
        int_text(seconds as int) + seq!['s']
    }
}

/// The fields that the pattern finds in a machine duration.
pub open spec fn duration_fields(duration: Seq<char>) -> Option<DurationFields> {
    captured_fields(regex_captures(DURATION_PATTERN@, duration))
}

/// The human form of a machine duration whose fields can be read.
pub open spec fn duration_text(duration: Seq<char>) -> Seq<char> {
    let fields = duration_fields(duration).unwrap();
    human_duration_text(fields.hours, fields.minutes, fields.seconds)
}

/// Renders three counts in the human form. Hours are folded into minutes.
pub fn format_duration(hours: i64, minutes: i64, seconds: i64) -> (text: String)
    ensures
        text@ == human_duration_text(hours, minutes, seconds),
{
    let mut total: i128 = minutes as i128;
    if hours > 0 {
        total = total + (hours as i128) * 60;
    }
    let mut out: Vec<char> = Vec::new();
    if total > 0 {
        push_int(&mut out, total);
        out.push('m');
        out.push(' ');
    }
    push_int(&mut out, seconds as i128);
    out.push('s');
    string_of(&out)
}

/// The count that group `index` stands for.
fn read_field(groups: &Vec<Option<String>>, index: usize) -> (value: Option<i64>)
    ensures
        value == field_value(group_text(Some(group_views(groups@)), index as int)),
{
    if index < groups.len() {
        match &groups[index] {
            Some(text) => {
                let digits = chars_of(text.as_str());
                parse_numeral(&digits)
            },
            None => Some(0),
        }
    } else {
        Some(0)
    }
}

/// Reads the three counts out of a capture result: group 1 the hours, group 2
/// the minutes, group 3 the seconds. A group that is absent counts as zero, and
/// so does every group when nothing matched.
pub fn read_fields(captures: &Option<Vec<Option<String>>>) -> (fields: Option<DurationFields>)
    ensures
        fields == captured_fields(captures_view(*captures)),
{
    match captures {
        Some(groups) => {
            let hours = read_field(groups, 1);
            let minutes = read_field(groups, 2);
            let seconds = read_field(groups, 3);
            match (hours, minutes, seconds) {
                (Some(h), Some(m), Some(s)) => Some(
                    DurationFields { hours: h, minutes: m, seconds: s },
                ),
                _ => None,
            }
        },
        None => Some(DurationFields { hours: 0, minutes: 0, seconds: 0 }),
    }
}

/// The human form of a machine duration such as `PT1H2M3S`.
pub fn parse_iso8601_duration(duration: &str) -> (text: String)
    requires
        duration_fields(duration@) is Some,
    ensures
        text@ == duration_text(duration@),
{
    let captures = capture_groups(DURATION_PATTERN, duration);
    match read_fields(&captures) {
        Some(fields) => format_duration(fields.hours, fields.minutes, fields.seconds),
        None => unreached(),
    }
}

/// As `parse_iso8601_duration`, for any text: `None` where a field is present
/// that cannot be read as an `i64`.
pub fn try_parse_iso8601_duration(duration: &str) -> (text: Option<String>)
    ensures
        text is Some <==> duration_fields(duration@) is Some,
        text is Some ==> text.unwrap()@ == duration_text(duration@),
{
    let captures = capture_groups(DURATION_PATTERN, duration);
    if read_fields(&captures).is_some() {
        Some(parse_iso8601_duration(duration))
    } else {
        None
    }
}

/// The human forms of a batch of machine durations, in the same order; `None`
/// where one of them holds a field that cannot be read as an `i64`.
pub fn normalize_durations(raw: &Vec<String>) -> (out: Option<Vec<String>>)
    ensures
        out is Some <==> forall|i: int|
            0 <= i < raw@.len() ==> duration_fields(#[trigger] raw@[i]@) is Some,
        out is Some ==> out.unwrap()@.len() == raw@.len(),
        out is Some ==> forall|i: int|
            0 <= i < raw@.len() ==> (#[trigger] out.unwrap()@[i])@ == duration_text(raw@[i]@),
{
    let mut out: Vec<String> = Vec::new();
    let mut i: usize = 0;
    while i < raw.len()
        invariant
            i <= raw.len(),
            out@.len() == i,
            forall|k: int| 0 <= k < i ==> duration_fields(#[trigger] raw@[k]@) is Some,
            forall|k: int| 0 <= k < i ==> (#[trigger] out@[k])@ == duration_text(raw@[k]@),
        decreases raw.len() - i,
    {
        match try_parse_iso8601_duration(raw[i].as_str()) {
            Some(text) => {
                out.push(text);
            },
            None => {
                return None;
            },
        }
        i += 1;
    }
    Some(out)
}

/// The unit that a term of a length text is counted in.
#[derive(Clone, Copy, Debug, PartialEq, Eq)]
pub enum LengthUnit {
    Minutes,
    Seconds,
}

/// One term of a length text: a numeral and the unit that followed it.
#[derive(Clone, Debug, PartialEq, Eq)]
pub struct LengthTerm {
    pub unit: LengthUnit,
    pub numeral: String,
}

impl View for LengthTerm {
    type V = (LengthUnit, Seq<char>);

    open spec fn view(&self) -> (LengthUnit, Seq<char>) {
        (self.unit, self.numeral@)
    }
}

/// The term that a word stands for: a word that ends in `m` counts minutes, one
/// that ends in `s` counts seconds, and the numeral is the word without the unit
/// letters at its end. Any other word stands for nothing.
pub open spec fn term_of(word: Seq<char>) -> Option<(LengthUnit, Seq<char>)> {
    if word.len() > 0 && word.last() == 'm' {
        Some((LengthUnit::Minutes, trim_end(word, 'm')))
    } else if word.len() > 0 && word.last() == 's' {
        Some((LengthUnit::Seconds, trim_end(word, 's')))
    } else {
        None
    }
}

/// The terms of a list of words, in order.
pub open spec fn terms_of(list: Seq<Seq<char>>) -> Seq<(LengthUnit, Seq<char>)>
    decreases list.len(),
{
    if list.len() == 0 {
        Seq::empty()
    } else {
        match term_of(list.last()) {
            Some(term) => terms_of(list.drop_last()).push(term),
            None => terms_of(list.drop_last()),
        }
    }
}

/// The terms of a length text such as `"62m 3s"`.
pub open spec fn length_terms(length: Seq<char>) -> Seq<(LengthUnit, Seq<char>)> {
    terms_of(words(length))
}

/// What a list of terms holds.
pub open spec fn term_views(terms: Seq<LengthTerm>) -> Seq<(LengthUnit, Seq<char>)> {
    Seq::new(terms.len(), |i: int| terms[i]@)
}

/// Splits a length text into its terms. The text is cut at whitespace; each
/// word that ends in `m` or `s` gives one term. The numerals are handed out as
/// written, for the caller to read and add up.
pub fn parse_length(length: &str) -> (terms: Vec<LengthTerm>)
    ensures
        term_views(terms@) == length_terms(length@),
{
    let text = chars_of(length);
    let list = split_words(&text);
    let mut terms: Vec<LengthTerm> = Vec::new();
    let mut i: usize = 0;
    let ghost all = words(text@);
    while i < list.len()
        invariant
            i <= list.len(),
            list@.len() == all.len(),
            forall|k: int| 0 <= k < list@.len() ==> (#[trigger] list@[k])@ == all[k],
            term_views(terms@) == terms_of(all.take(i as int)),
        decreases list.len() - i,
    {
        let word = &list[i];
        let n = word.len();
        proof {
            assert(all.take(i + 1).drop_last() == all.take(i as int));
            assert(all.take(i + 1).last() == word@);
        }
        if n > 0 && word[n - 1] == 'm' {
            let numeral = string_of(&trim_end_chars(word, 'm'));
            let ghost before = terms@;
            terms.push(LengthTerm { unit: LengthUnit::Minutes, numeral });
            proof {
                assert(term_views(terms@) == term_views(before).push(
                    (LengthUnit::Minutes, trim_end(word@, 'm')),
                ));
            }
        } else if n > 0 && word[n - 1] == 's' {
            let numeral = string_of(&trim_end_chars(word, 's'));
            let ghost before = terms@;
            terms.push(LengthTerm { unit: LengthUnit::Seconds, numeral });
            proof {
                assert(term_views(terms@) == term_views(before).push(
                    (LengthUnit::Seconds, trim_end(word@, 's')),
                ));
            }
        }
        i += 1;
    }
    proof {
        assert(all.take(list.len() as int) == all);
    }
    terms
}

/// A number with a unit letter behind it is one word, and stands for the term
/// with that number and that unit.
proof fn lemma_numeral_word(n: nat, unit: char)
    requires
        unit == 'm' || unit == 's',
    ensures
        forall|k: int|
            0 <= k < nat_text(n).push(unit).len() ==> !is_whitespace(
                #[trigger] nat_text(n).push(unit)[k],
            ),
        term_of(nat_text(n).push(unit)) == Some(
            (
                if unit == 'm' {
                    LengthUnit::Minutes
                } else {
                    LengthUnit::Seconds
                },
                nat_text(n),
            ),
        ),
{
    let digits = nat_text(n);
    let word = digits.push(unit);
    lemma_nat_text_numeral(n);
    assert forall|k: int| 0 <= k < word.len() implies !is_whitespace(#[trigger] word[k]) by {
        if k < digits.len() {
            assert(is_digit(digits[k]));
            assert(word[k] == digits[k]);
        }
    }
    assert(is_digit(digits.last()));
    lemma_trim_end_one(digits, unit);
}

/// The two forms agree: the human form of counts that are not negative reads
/// back as a minutes term with the folded minutes, where there are any, and a
/// seconds term with the seconds, and each numeral denotes its count.
pub proof fn lemma_human_form_reads_back(hours: i64, minutes: i64, seconds: i64)
    requires
        hours >= 0,
        minutes >= 0,
        seconds >= 0,
    ensures
        length_terms(human_duration_text(hours, minutes, seconds)) == if total_minutes(
            hours,
            minutes,
        ) > 0 {
            seq![
                (LengthUnit::Minutes, nat_text(total_minutes(hours, minutes) as nat)),
                (LengthUnit::Seconds, nat_text(seconds as nat)),
            ]
        } else {
            seq![(LengthUnit::Seconds, nat_text(seconds as nat))]
        },
        numeral_value(nat_text(total_minutes(hours, minutes) as nat)) == total_minutes(
            hours,
            minutes,
        ),
        numeral_value(nat_text(seconds as nat)) == seconds,
{
    let total = total_minutes(hours, minutes) as nat;
    let text = human_duration_text(hours, minutes, seconds);
    let second_word = nat_text(seconds as nat).push('s');
    let none = Seq::<char>::empty();
    lemma_nat_text_numeral(total);
    lemma_nat_text_numeral(seconds as nat);
    lemma_numeral_word(seconds as nat, 's');
    lemma_words_first(second_word, none);
    assert(second_word + none == second_word);
    assert(words(none) == Seq::<Seq<char>>::empty());
    assert(words(second_word) == seq![second_word]);
    let last_term = (LengthUnit::Seconds, nat_text(seconds as nat));
    assert(terms_of(seq![second_word]) == seq![last_term]) by {
        assert(seq![second_word].drop_last() == Seq::<Seq<char>>::empty());
        assert(terms_of(Seq::<Seq<char>>::empty()) == Seq::<(LengthUnit, Seq<char>)>::empty());
        assert(Seq::<(LengthUnit, Seq<char>)>::empty().push(last_term) == seq![last_term]);
    }
    if total > 0 {
        let first_word = nat_text(total).push('m');
        let first_term = (LengthUnit::Minutes, nat_text(total));
        lemma_numeral_word(total, 'm');
        let rest = seq![' '] + second_word;
        assert(text == first_word + rest);
        assert(rest[0] == ' ');
        lemma_words_first(first_word, rest);
        lemma_words_skip(' ', second_word);
        let both = seq![first_word, second_word];
        assert(words(text) == both);
        assert(both.drop_last() == seq![first_word]);
        assert(seq![first_word].drop_last() == Seq::<Seq<char>>::empty());
        assert(terms_of(Seq::<Seq<char>>::empty()) == Seq::<(LengthUnit, Seq<char>)>::empty());
        assert(terms_of(seq![first_word]) == seq![first_term]);
        assert(terms_of(both) == seq![first_term, last_term]);
    } else {
        assert(text == second_word);
    }
}

} // verus!
