//! The stamp that `refish` leaves in its output's description, from which a
//! later `flatten` takes the exact geometry to invert.

use vstd::prelude::*;
use vstd::string::*;

use crate::projection;
use crate::projection::Projection;
use crate::text;
use crate::text::{
    chars_of, find_chars, reads_as_number, same_text, split_words, text_between, to_lower,
};

verus! {

/// The exact geometry `refish` used: the angle at the circle's edge in radians
/// and the circle's radius in pixels, both as decimal numerals, and the
/// projection of the source.
pub struct RefishStamp {
    pub theta_max: String,
    pub proj: Projection,
    pub r_circle: String,
}

/// The content of a stamp.
pub struct StampView {
    pub theta_max: Seq<char>,
    pub proj: Projection,
    pub r_circle: Seq<char>,
}

impl View for RefishStamp {
    type V = StampView;

    open spec fn view(&self) -> StampView {
        StampView { theta_max: self.theta_max@, proj: self.proj, r_circle: self.r_circle@ }
    }
}

/// The fields of a stamp, as they stand between its brackets.
pub open spec fn stamp_fields(stamp: StampView) -> Seq<char> {
    "theta="@ + stamp.theta_max + " proj="@ + projection::short_name_of(stamp.proj) + " r="@
        + stamp.r_circle
}

/// A stamp as it is written.
pub open spec fn stamp_token(stamp: StampView) -> Seq<char> {
    "[ff-refish "@ + stamp_fields(stamp) + "]"@
}

/// Formats the stamp token embedded at the start of refish's description.
pub fn refish_stamp_token(theta_max: &str, proj: &Projection, r_circle: &str) -> (r: String)
    ensures
        r@ == stamp_token(
            (StampView { theta_max: theta_max@, proj: *proj, r_circle: r_circle@ }),
        ),
{
    let mut r = "[ff-refish ".to_owned();
    r.append("theta=");
    r.append(theta_max);
    r.append(" proj=");
    r.append(proj.short_name());
    r.append(" r=");
    r.append(r_circle);
    r.append("]");
    assert(r@ =~= stamp_token(
        StampView { theta_max: theta_max@, proj: *proj, r_circle: r_circle@ },
    ));
    r
}

// ---------------------------------------------------------------------------
// Reading a stamp
// ---------------------------------------------------------------------------

/// What stands between the brackets of the first stamp in `desc`.
pub open spec fn stamp_body(desc: Seq<char>) -> Option<Seq<char>> {
    match text::find(desc, "[ff-refish "@) {
        Some(i) => {
            let rest = desc.skip(i + "[ff-refish "@.len());
            match text::find(rest, "]"@) {
                Some(end) => Some(rest.take(end)),
                None => None,
            }
        },
        None => None,
    }
}

/// The value in a word of the form key, equals sign, value.
pub open spec fn value_of(word: Seq<char>, key: Seq<char>) -> Option<Seq<char>> {
    match text::find(word, "="@) {
        Some(i) => if word.take(i) == key {
            Some(word.skip(i + 1))
        } else {
            None
        },
        None => None,
    }
}

/// The value of the last of `words` that gives one for `key`.
pub open spec fn last_value(words: Seq<Seq<char>>, key: Seq<char>) -> Option<Seq<char>>
    decreases words.len(),
{
    if words.len() == 0 {
        None
    } else {
        match value_of(words.last(), key) {
            Some(v) => Some(v),
            None => last_value(words.drop_last(), key),
        }
    }
}

/// The stamp in `desc`, if there is one with all of its fields, its measures
/// numbers.
pub open spec fn stamp_in(desc: Seq<char>) -> Option<StampView> {
    match stamp_body(desc) {
        Some(body) => {
            let words = text::words(body);
            match (
                last_value(words, "theta"@),
                last_value(words, "proj"@),
                last_value(words, "r"@),
            ) {
                (
                    Some(theta_max),
                    Some(name),
                    Some(r_circle),
                ) => match projection::projection_named(text::lower(name)) {
                    Some(proj) => if text::is_number(theta_max) && text::is_number(r_circle) {
                        Some(StampView { theta_max, proj, r_circle })
                    } else {
                        None
                    },
                    None => None,
                },
                _ => None,
            }
        },
        None => None,
    }
}

fn read_body(desc: &str) -> (r: Option<String>)
    ensures
        match r {
            Some(b) => stamp_body(desc@) == Some(b@),
            None => stamp_body(desc@) is None,
        },
{
    let chars = chars_of(desc);
    let opening = chars_of("[ff-refish ");
    let closing = chars_of("]");
    let total: usize = chars.len();
    match find_chars(&chars, &opening) {
        Some(i) => {
            let from: usize = i + opening.len();
            let rest_text = text_between(&chars, from, total);
            assert(rest_text@ =~= desc@.skip(i + "[ff-refish "@.len()));
            let rest = chars_of(rest_text.as_str());
            match find_chars(&rest, &closing) {
                Some(end) => {
                    let body = text_between(&rest, 0, end);
                    assert(body@ =~= rest@.take(end as int));
                    Some(body)
                },
                None => None,
            }
        },
        None => None,
    }
}

fn read_value(word: &str, key: &str) -> (r: Option<String>)
    ensures
        match r {
            Some(v) => value_of(word@, key@) == Some(v@),
            None => value_of(word@, key@) is None,
        },
{
    let chars = chars_of(word);
    let equals = chars_of("=");
    let total: usize = chars.len();
    proof {
        reveal_strlit("=");
    }
    match find_chars(&chars, &equals) {
        Some(i) => {
            let k = text_between(&chars, 0, i);
            assert(k@ =~= word@.take(i as int));
            if same_text(k.as_str(), key) {
                let v = text_between(&chars, i + 1, total);
                assert(v@ =~= word@.skip(i + 1));
                Some(v)
            } else {
                None
            }
        },
        None => None,
    }
}

fn read_last_value(words: &Vec<String>, key: &str) -> (r: Option<String>)
    ensures
        match r {
            Some(v) => last_value(words@.map_values(|w: String| w@), key@) == Some(v@),
            None => last_value(words@.map_values(|w: String| w@), key@) is None,
        },
{
    let ghost all = words@.map_values(|w: String| w@);
    let mut n: usize = words.len();
    assert(all.take(n as int) =~= all);
    while n > 0
        invariant
            n <= words@.len(),
            all == words@.map_values(|w: String| w@),
            last_value(all, key@) == last_value(all.take(n as int), key@),
        decreases n,
    {
        assert(all.take(n as int).last() == words@[n - 1]@);
        assert(all.take(n as int).drop_last() =~= all.take(n - 1));
        let found = read_value(words[n - 1].as_str(), key);
        if found.is_some() {
            return found;
        }
        n -= 1;
    }
    assert(all.take(0) =~= Seq::<Seq<char>>::empty());
    None
}

/// Parses a refish stamp out of an image's description, if one is present.
pub fn parse_refish_stamp(desc: &str) -> (r: Option<RefishStamp>)
    ensures
        match r {
            Some(stamp) => stamp_in(desc@) == Some(stamp@),
            None => stamp_in(desc@) is None,
        },
{
    let body = match read_body(desc) {
        Some(body) => body,
        None => return None,
    };
    let words = split_words(body.as_str());
    let theta = read_last_value(&words, "theta");
    let name = read_last_value(&words, "proj");
    let radius = read_last_value(&words, "r");
    match (theta, name, radius) {
        (Some(theta_max), Some(n), Some(r_circle)) => {
            let low = to_lower(n.as_str());
            match Projection::named(low.as_str()) {
                Some(proj) => if reads_as_number(theta_max.as_str()) && reads_as_number(
                    r_circle.as_str(),
                ) {
                    Some(RefishStamp { theta_max, proj, r_circle })
                } else {
                    None
                },
                None => None,
            }
        },
        _ => None,
    }
}

// ---------------------------------------------------------------------------
// What is written is read back
// ---------------------------------------------------------------------------

/// A text that can stand as a value in a stamp: no white space, which would
/// end the word, and no bracket, which would end the stamp.
spec fn can_be_stamped(s: Seq<char>) -> bool {
    text::spaceless(s) && text::without(s, ']')
}

proof fn lemma_numbers_can_be_stamped(s: Seq<char>)
    requires
        text::is_number(s),
    ensures
        can_be_stamped(s),
{
    text::lemma_number_chars(s);
    assert forall|i: int| 0 <= i < s.len() implies !text::is_space(#[trigger] s[i]) && s[i]
        != ']' by {
        assert(text::is_number_char(s[i]));
    }
}

proof fn lemma_literals()
    ensures
        "theta="@ == "theta"@.push('='),
        " proj="@ == seq![' '] + "proj"@.push('='),
        " r="@ == seq![' '] + "r"@.push('='),
        "]"@ == seq![']'],
        "="@ == seq!['='],
        "[ff-refish "@.len() == 11,
        "[ff-refish "@[0] == '[',
        can_be_stamped("theta="@),
        can_be_stamped("proj"@.push('=')),
        can_be_stamped("r"@.push('=')),
        can_be_stamped("rect"@),
        can_be_stamped("cyl"@),
        text::without("theta"@, '='),
        text::without("proj"@, '='),
        text::without("r"@, '='),
        "theta"@ != "proj"@,
        "theta"@ != "r"@,
        "proj"@ != "r"@,
{
    reveal_strlit("theta=");
    reveal_strlit("theta");
    reveal_strlit(" proj=");
    reveal_strlit("proj");
    reveal_strlit(" r=");
    reveal_strlit("r");
    reveal_strlit("]");
    reveal_strlit("=");
    reveal_strlit("[ff-refish ");
    reveal_strlit("rect");
    reveal_strlit("cyl");
    assert("theta="@ =~= "theta"@.push('='));
    assert(" proj="@ =~= seq![' '] + "proj"@.push('='));
    assert(" r="@ =~= seq![' '] + "r"@.push('='));
    assert("]"@ =~= seq![']']);
    assert("="@ =~= seq!['=']);
    assert("theta"@.len() == 5);
    assert("proj"@.len() == 4);
    assert("r"@.len() == 1);
}

proof fn lemma_opening()
    ensures
        "[ff-refish "@.len() == 11,
        "[ff-refish "@[0] == '[',
        forall|k: int| 1 <= k < 11 ==> #[trigger] "[ff-refish "@[k] != '[',
{
    reveal_strlit("[ff-refish ");
    assert("[ff-refish "@ =~= seq!['[', 'f', 'f', '-', 'r', 'e', 'f', 'i', 's', 'h', ' ']);
}

proof fn lemma_opening_is_found(before: Seq<char>, rest: Seq<char>)
    requires
        !text::occurs(before, "[ff-refish "@),
    ensures
        text::find(before + "[ff-refish "@ + rest, "[ff-refish "@) == Some(before.len() as int),
{
    lemma_opening();
    let opening = "[ff-refish "@;
    let hay = before + opening + rest;
    let n = before.len() as int;
    assert(hay.subrange(n, n + opening.len() as int) =~= opening);
    assert forall|j: int| 0 <= j < n implies !text::occurs_at(hay, opening, j) by {
        if text::occurs_at(hay, opening, j) {
            if j + opening.len() <= n {
                assert(before.subrange(j, j + opening.len() as int) =~= hay.subrange(
                    j,
                    j + opening.len() as int,
                ));
                assert(text::occurs_at(before, opening, j));
            } else {
                // The bracket stands at the front of an opening and nowhere else in it.
                assert(hay.subrange(j, j + opening.len() as int)[n - j] == hay[n]);
                assert(opening[n - j] == '[');
            }
        }
    }
    text::lemma_find_at(hay, opening, n);
}

proof fn lemma_value_of(key: Seq<char>, value: Seq<char>, other: Seq<char>)
    requires
        text::without(key, '='),
    ensures
        value_of(key.push('=') + value, other) == (if key == other {
            Some(value)
        } else {
            None
        }),
{
    lemma_literals();
    let word = key.push('=') + value;
    text::lemma_find_after(key, seq!['='], value);
    assert(word =~= key + seq!['='] + value);
    assert(word.take(key.len() as int) =~= key);
    assert(word.skip(key.len() + 1int) =~= value);
}

/// A stamp that was written is read back, whatever stands behind it and
/// whatever stands before it without the opening of a stamp.
pub proof fn law_stamp_reads_back(before: Seq<char>, stamp: StampView, after: Seq<char>)
    requires
        !text::occurs(before, "[ff-refish "@),
        text::is_number(stamp.theta_max),
        text::is_number(stamp.r_circle),
    ensures
        stamp_in(before + stamp_token(stamp) + after) == Some(stamp),
{
    lemma_literals();
    lemma_numbers_can_be_stamped(stamp.theta_max);
    lemma_numbers_can_be_stamped(stamp.r_circle);
    let name = projection::short_name_of(stamp.proj);
    let body = stamp_fields(stamp);
    let w1 = "theta"@.push('=') + stamp.theta_max;
    let w2 = "proj"@.push('=') + name;
    let w3 = "r"@.push('=') + stamp.r_circle;
    assert(can_be_stamped(w1));
    assert(can_be_stamped(w2));
    assert(can_be_stamped(w3));
    let tail = w2 + seq![' '] + w3;
    assert(body =~= w1 + seq![' '] + tail);

    // The brackets are found around the fields.
    let desc = before + stamp_token(stamp) + after;
    let rest = body + "]"@ + after;
    assert(desc =~= before + "[ff-refish "@ + rest);
    lemma_opening_is_found(before, rest);
    assert(desc.skip(before.len() + 11int) =~= rest);
    assert(text::without(body, ']'));
    text::lemma_find_after(body, "]"@, after);
    assert(rest.take(body.len() as int) =~= body);
    assert(stamp_body(desc) == Some(body));

    // The fields are its words.
    text::lemma_words_cons(w1, tail);
    text::lemma_words_cons(w2, w3);
    text::lemma_words_one(w3);
    let ws = text::words(body);
    assert(ws =~= seq![w1, w2, w3]);

    // Each key finds its own word.
    let two = ws.drop_last();
    let one = two.drop_last();
    assert(two =~= seq![w1, w2]);
    assert(one =~= seq![w1]);
    assert(ws.last() == w3 && two.last() == w2 && one.last() == w1);
    lemma_value_of("r"@, stamp.r_circle, "r"@);
    lemma_value_of("r"@, stamp.r_circle, "proj"@);
    lemma_value_of("r"@, stamp.r_circle, "theta"@);
    lemma_value_of("proj"@, name, "proj"@);
    lemma_value_of("proj"@, name, "theta"@);
    lemma_value_of("theta"@, stamp.theta_max, "theta"@);
    assert(last_value(ws, "r"@) == Some(stamp.r_circle));
    assert(last_value(two, "proj"@) == Some(name));
    assert(last_value(ws, "proj"@) == Some(name));
    assert(last_value(one, "theta"@) == Some(stamp.theta_max));
    assert(last_value(two, "theta"@) == Some(stamp.theta_max));
    assert(last_value(ws, "theta"@) == Some(stamp.theta_max));
    projection::law_names_parse_back(stamp.proj);
}

/// A value is the one that stands behind the key and an equals sign, and of
/// several for one key the last counts.
pub proof fn law_last_value_counts(
    words: Seq<Seq<char>>,
    key: Seq<char>,
    value: Seq<char>,
    other: Seq<char>,
)
    requires
        text::without(key, '='),
    ensures
        last_value(words.push(key.push('=') + value), key) == Some(value),
        other != key ==> last_value(words.push(key.push('=') + value), other) == last_value(
            words,
            other,
        ),
{
    let word = key.push('=') + value;
    let more = words.push(word);
    assert(more.drop_last() =~= words);
    assert(more.last() == word);
    lemma_value_of(key, value, key);
    lemma_value_of(key, value, other);
}

/// A stamp is read only from a text that holds the opening of one, and its
/// measures are numbers.
pub proof fn law_stamp_has_an_opening_and_numbers(desc: Seq<char>)
    ensures
        stamp_in(desc) matches Some(s) ==> text::occurs(desc, "[ff-refish "@) && text::is_number(
            s.theta_max,
        ) && text::is_number(s.r_circle),
{
}

/// A stamp is written with its measures and projection between brackets, each
/// behind its key.
pub proof fn law_stamp_names_its_fields(s: StampView)
    ensures
        text::occurs(stamp_token(s), "[ff-refish theta="@ + s.theta_max),
        text::occurs(stamp_token(s), " proj="@ + projection::short_name_of(s.proj)),
        text::occurs(stamp_token(s), " r="@ + s.r_circle + "]"@),
{
    reveal_strlit("[ff-refish theta=");
    reveal_strlit("[ff-refish ");
    reveal_strlit("theta=");
    let token = stamp_token(s);
    let name = projection::short_name_of(s.proj);
    let a = "[ff-refish theta="@ + s.theta_max;
    let b = " proj="@ + name;
    let c = " r="@ + s.r_circle + "]"@;
    assert("[ff-refish theta="@ =~= "[ff-refish "@ + "theta="@);
    assert(token =~= a + b + c);
    assert(token.subrange(0, a.len() as int) =~= a);
    assert(text::occurs_at(token, a, 0));
    assert(token.subrange(a.len() as int, a.len() as int + b.len() as int) =~= b);
    assert(text::occurs_at(token, b, a.len() as int));
    let n = a.len() as int + b.len() as int;
    assert(token.subrange(n, n + c.len() as int) =~= c);
    assert(text::occurs_at(token, c, n));
}

} // verus!
