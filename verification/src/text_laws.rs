//! What the functions on texts do, in terms of the texts alone.

use vstd::prelude::*;

use crate::json;
use crate::json::JsonTree;
use crate::text;

verus! {

/// White space is the blank, the characters from tab to carriage return, and beyond
/// ASCII the other spaces and separators of Unicode.
pub proof fn spaces_are_white(c: char)
    ensures
        (c as u32) < 0x80 ==> (text::white_space(c) <==> c == ' ' || 9 <= c as u32 <= 13),
        (c as u32) >= 0x80 ==> (text::white_space(c) <==> {
            ||| c as u32 == 0x85 || c as u32 == 0xa0 || c as u32 == 0x1680
            ||| 0x2000 <= c as u32 <= 0x200a
            ||| c as u32 == 0x2028 || c as u32 == 0x2029 || c as u32 == 0x202f || c as u32 == 0x205f
            ||| c as u32 == 0x3000
        }),
{
}

proof fn lemma_trim_left(s: Seq<char>) -> (i: int)
    ensures
        0 <= i <= s.len(),
        text::trim_left(s) == s.skip(i),
        forall|k: int| 0 <= k < i ==> text::white_space(#[trigger] s[k]),
        i < s.len() ==> !text::white_space(s[i]),
    decreases s.len(),
{
    if s.len() > 0 && text::white_space(s.first()) {
        let rest = s.drop_first();
        let i = lemma_trim_left(rest);
        assert(rest.skip(i) =~= s.skip(i + 1));
        assert forall|k: int| 0 <= k < i + 1 implies text::white_space(#[trigger] s[k]) by {
            if k > 0 {
                assert(rest[k - 1] == s[k]);
            }
        }
        if i + 1 < s.len() {
            assert(rest[i] == s[i + 1]);
        }
        i + 1
    } else {
        assert(s.skip(0) =~= s);
        0
    }
}

proof fn lemma_trim_right(s: Seq<char>) -> (j: int)
    ensures
        0 <= j <= s.len(),
        text::trim_right(s) == s.take(j),
        forall|k: int| j <= k < s.len() ==> text::white_space(#[trigger] s[k]),
        j > 0 ==> !text::white_space(s[j - 1]),
    decreases s.len(),
{
    if s.len() > 0 && text::white_space(s.last()) {
        let front = s.drop_last();
        let j = lemma_trim_right(front);
        assert(front.take(j) =~= s.take(j));
        assert forall|k: int| j <= k < s.len() implies text::white_space(#[trigger] s[k]) by {
            if k < front.len() {
                assert(front[k] == s[k]);
            }
        }
        if j > 0 {
            assert(front[j - 1] == s[j - 1]);
        }
        j
    } else {
        assert(s.take(s.len() as int) =~= s);
        s.len() as int
    }
}

/// Trimming a text takes white space off both ends and nothing else, and what is left
/// neither begins nor ends with white space. Returned is where it stood.
pub proof fn trimming_takes_the_white_ends(s: Seq<char>) -> (r: (int, int))
    ensures
        0 <= r.0 <= r.1 <= s.len(),
        text::trimmed(s) == s.subrange(r.0, r.1),
        forall|k: int| 0 <= k < r.0 ==> text::white_space(#[trigger] s[k]),
        forall|k: int| r.1 <= k < s.len() ==> text::white_space(#[trigger] s[k]),
        r.0 < r.1 ==> !text::white_space(s[r.0]) && !text::white_space(s[r.1 - 1]),
{
    let i = lemma_trim_left(s);
    let rest = s.skip(i);
    let j = lemma_trim_right(rest);
    assert(rest.take(j) =~= s.subrange(i, i + j));
    assert forall|k: int| i + j <= k < s.len() implies text::white_space(#[trigger] s[k]) by {
        assert(rest[k - i] == s[k]);
    }
    if j > 0 {
        assert(rest[j - 1] == s[i + j - 1]);
        assert(!text::white_space(s[i]));
    }
    (i, i + j)
}

/// A text that neither begins nor ends with white space comes out of any padding.
pub proof fn padding_is_trimmed(left: Seq<char>, s: Seq<char>, right: Seq<char>)
    requires
        forall|k: int| 0 <= k < left.len() ==> text::white_space(#[trigger] left[k]),
        forall|k: int| 0 <= k < right.len() ==> text::white_space(#[trigger] right[k]),
        s.len() > 0 ==> !text::white_space(s.first()) && !text::white_space(s.last()),
    ensures
        text::trimmed(left + s + right) == s,
{
    let t = left + s + right;
    let (i, j) = trimming_takes_the_white_ends(t);
    if s.len() == 0 {
        if i < j {
            if i < left.len() {
                assert(left[i] == t[i]);
            } else {
                assert(right[i - left.len()] == t[i]);
            }
        }
        assert(t.subrange(i, j) =~= s);
    } else {
        let (a, b) = (left.len() as int, (left.len() + s.len()) as int);
        assert(t[a] == s.first());
        assert(t[b - 1] == s.last());
        assert(i <= a && b <= j) by {
            if a < i {
                assert(text::white_space(t[a]));
            }
            if j < b {
                assert(text::white_space(t[b - 1]));
            }
        }
        if i < a {
            assert(left[i] == t[i]);
        }
        if j > b {
            assert(right[j - 1 - b] == t[j - 1]);
        }
        assert(t.subrange(i, j) =~= s);
    }
}

/// A text is found in another where that is made of something before it, the text, and
/// something after it.
pub proof fn found_text_is_a_part(hay: Seq<char>, needle: Seq<char>)
    ensures
        text::occurs(hay, needle) <==> exists|a: Seq<char>, b: Seq<char>| hay == #[trigger] (a + needle + b),
{
    if text::occurs(hay, needle) {
        let i = choose|i: int| text::stands_at(hay, needle, i);
        let (a, b) = (hay.take(i), hay.skip(i + needle.len()));
        assert forall|k: int| 0 <= k < needle.len() implies hay[i + k] == #[trigger] needle[k] by {
            assert(hay.subrange(i, i + needle.len())[k] == needle[k]);
        }
        assert(hay =~= a + needle + b);
    }
    if exists|a: Seq<char>, b: Seq<char>| hay == #[trigger] (a + needle + b) {
        let (a, b) = choose|a: Seq<char>, b: Seq<char>| hay == #[trigger] (a + needle + b);
        let i = a.len() as int;
        assert(hay.subrange(i, i + needle.len()) =~= needle);
        assert(text::stands_at(hay, needle, i));
    }
}

/// A text begins with another where something may follow that, and ends with another
/// where something may come before that.
pub proof fn ends_of_a_text_are_its_parts(s: Seq<char>, part: Seq<char>)
    ensures
        text::begins(s, part) <==> exists|rest: Seq<char>| s == #[trigger] (part + rest),
        text::ends(s, part) <==> exists|front: Seq<char>| s == #[trigger] (front + part),
{
    let n = part.len();
    if text::begins(s, part) {
        assert forall|k: int| 0 <= k < n implies s[k] == #[trigger] part[k] by {
            assert(s.subrange(0, n as int)[k] == part[k]);
        }
        assert(s =~= part + s.skip(n as int));
    }
    if exists|rest: Seq<char>| s == #[trigger] (part + rest) {
        let rest = choose|rest: Seq<char>| s == #[trigger] (part + rest);
        assert(s.subrange(0, n as int) =~= part);
    }
    if text::ends(s, part) {
        let i = s.len() - n;
        assert forall|k: int| 0 <= k < n implies s[i + k] == #[trigger] part[k] by {
            assert(s.subrange(i, i + n)[k] == part[k]);
        }
        assert(s =~= s.take(i) + part);
    }
    if exists|front: Seq<char>| s == #[trigger] (front + part) {
        let front = choose|front: Seq<char>| s == #[trigger] (front + part);
        let i = s.len() - n;
        assert(s.subrange(i, i + n) =~= part);
    }
}

/// A digit spells its value.
pub proof fn digit_is_its_value(c: char)
    requires
        '0' <= c <= '9',
    ensures
        text::number_of(seq![c]) == Some((c as u32 - 48) as u64),
{
    let s = seq![c];
    assert(s.drop_last() =~= Seq::empty());
    reveal_with_fuel(text::decimal, 2);
    assert(text::all_digits(s));
}

/// One more digit behind a number makes ten times that number and the digit, where that
/// fits, and else no number.
pub proof fn digit_behind_a_number(s: Seq<char>, c: char, n: u64)
    requires
        text::number_of(s) == Some(n),
        '0' <= c <= '9',
    ensures
        10 * n + (c as u32 - 48) <= u64::MAX ==> text::number_of(s.push(c)) == Some(
            (10 * n + (c as u32 - 48)) as u64,
        ),
        10 * n + (c as u32 - 48) > u64::MAX ==> text::number_of(s.push(c)) is None,
{
    let signed = s.len() > 0 && s.first() == '+';
    let d = if signed {
        s.drop_first()
    } else {
        s
    };
    let t = s.push(c);
    let e = if signed {
        t.drop_first()
    } else {
        t
    };
    assert(text::all_digits(d));
    assert(t.first() == s.first());
    assert(e =~= d.push(c));
    assert(e.drop_last() =~= d);
    assert forall|i: int| 0 <= i < e.len() implies text::is_digit(#[trigger] e[i]) by {
        if i < d.len() {
            assert(e[i] == d[i]);
        }
    }
}

/// A number too large stays too large with one more digit behind it.
pub proof fn digit_behind_too_large_a_number(s: Seq<char>, c: char)
    requires
        s.len() > 0,
        forall|i: int| 0 <= i < s.len() ==> '0' <= #[trigger] s[i] <= '9',
        text::number_of(s) is None,
        '0' <= c <= '9',
    ensures
        text::number_of(s.push(c)) is None,
{
    assert(text::all_digits(s)) by {
        assert forall|i: int| 0 <= i < s.len() implies text::is_digit(#[trigger] s[i]) by {
            assert('0' <= s[i] <= '9');
        }
    }
    assert('0' <= s[0] <= '9');
    assert(s.push(c).drop_last() =~= s);
    assert(s.push(c).first() == s[0]);
}

/// A plus sign may stand before a number, but only one.
pub proof fn plus_may_stand_before(s: Seq<char>)
    ensures
        s.len() > 0 && s.first() == '+' ==> text::number_of(seq!['+'] + s) is None,
        s.len() == 0 || s.first() != '+' ==> text::number_of(seq!['+'] + s) == text::number_of(s),
{
    let t = seq!['+'] + s;
    assert(t.drop_first() =~= s);
    if s.len() > 0 && s.first() == '+' {
        assert(!text::is_digit(s[0]));
    }
}

/// A text without a digit, or with anything else than digits behind a plus sign, is no
/// number.
pub proof fn other_texts_are_no_numbers(s: Seq<char>, i: int)
    requires
        s.len() == 0 || (0 <= i < s.len() && !('0' <= s[i] <= '9') && !(i == 0 && s[i] == '+')),
    ensures
        text::number_of(s) is None,
{
    if s.len() > 0 {
        let signed = s.first() == '+';
        if signed {
            assert(!text::is_digit(s.drop_first()[i - 1]));
        } else {
            assert(!text::is_digit(s[i]));
        }
    }
}

/// What a field of an object holds is what stands at its name for the first time.
pub proof fn first_field_of_a_name_counts(fields: Seq<(Seq<char>, JsonTree)>, key: Seq<char>, i: int)
    requires
        0 <= i < fields.len(),
        fields[i].0 == key,
        forall|j: int| 0 <= j < i ==> (#[trigger] fields[j]).0 != key,
    ensures
        JsonTree::Object(fields).field(key) == Some(fields[i].1),
    decreases i,
{
    if i > 0 {
        let rest = fields.drop_first();
        assert(fields[0].0 != key);
        assert forall|j: int| 0 <= j < i - 1 implies (#[trigger] rest[j]).0 != key by {
            assert(rest[j] == fields[j + 1]);
        }
        first_field_of_a_name_counts(rest, key, i - 1);
        assert(JsonTree::Object(rest).field(key) == json::field_named(rest, key));
    }
}

/// Without the name there is no field, nor is there in anything but an object.
pub proof fn absent_name_has_no_field(t: JsonTree, key: Seq<char>)
    requires
        t matches JsonTree::Object(fields) ==> forall|j: int|
            0 <= j < fields.len() ==> (#[trigger] fields[j]).0 != key,
    ensures
        t.field(key) is None,
    decreases t,
{
    if let JsonTree::Object(fields) = t {
        lemma_absent(fields, key);
    }
}

proof fn lemma_absent(fields: Seq<(Seq<char>, JsonTree)>, key: Seq<char>)
    requires
        forall|j: int| 0 <= j < fields.len() ==> (#[trigger] fields[j]).0 != key,
    ensures
        json::field_named(fields, key) is None,
    decreases fields.len(),
{
    if fields.len() > 0 {
        let rest = fields.drop_first();
        assert(fields[0].0 != key);
        assert forall|j: int| 0 <= j < rest.len() implies (#[trigger] rest[j]).0 != key by {
            assert(rest[j] == fields[j + 1]);
        }
        lemma_absent(rest, key);
    }
}

/// A field is read as what it is: a text as a text, a whole number as a number.
pub proof fn field_is_read_as_it_is(t: JsonTree, key: Seq<char>, s: Seq<char>, n: u64)
    ensures
        t.text_field(key) == Some(s) <==> t.field(key) == Some(JsonTree::Text(s)),
        t.number_field(key) == Some(n) <==> t.field(key) == Some(JsonTree::Number(Some(n))),
{
}

} // verus!
