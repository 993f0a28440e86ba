//! Field-level decoding: splitting a line on commas, quoted text and
//! unsigned decimal integers.
use vstd::prelude::*;

verus! {

/// The fields of `s` when split on every `,`: one more field than there are
/// commas, empty fields included.
pub open spec fn split_fields(s: Seq<char>) -> Seq<Seq<char>>
    decreases s.len(),
{
    if s.len() == 0 {
        seq![Seq::empty()]
    } else {
        let prev = split_fields(s.drop_last());
        if s.last() == ',' {
            prev.push(Seq::empty())
        } else {
            prev.update(prev.len() - 1, prev.last().push(s.last()))
        }
    }
}

/// The views of a sequence of string slices.
pub open spec fn views(parts: Seq<&str>) -> Seq<Seq<char>> {
    parts.map_values(|p: &str| p@)
}

/// Splits `line` on every `,`.
pub fn split_line<'a>(line: &'a str) -> (parts: Vec<&'a str>)
    ensures
        views(parts@) == split_fields(line@),
{
    let mut parts: Vec<&'a str> = Vec::new();
    let mut start: usize = 0;
    let mut i: usize = 0;
    // The character count bounds the index, which therefore cannot overflow.
    let len = line.unicode_len();
    assert(line@.take(0) =~= Seq::<char>::empty());
    assert(views(parts@) =~= Seq::<Seq<char>>::empty());
    assert(views(parts@).push(line@.subrange(0, 0)) =~= split_fields(line@.take(0)));
    for c in it: line.chars()
        invariant
            i == it.index(),
            it.seq() == line@,
            len == line@.len(),
            i <= line@.len(),
            start <= i,
            views(parts@).push(line@.subrange(start as int, i as int)) == split_fields(
                line@.take(i as int),
            ),
    {
        assert(i < line@.len());
        assert(c == line@[i as int]);
        let ghost done = views(parts@);
        let ghost cur = line@.subrange(start as int, i as int);
        assert(line@.take(i + 1).drop_last() =~= line@.take(i as int));
        assert(line@.take(i + 1).last() == c);
        let ghost next = split_fields(line@.take(i + 1));
        assert(split_fields(line@.take(i as int)) == done.push(cur));
        if c == ',' {
            parts.push(line.substring_char(start, i));
            start = i + 1;
            assert(views(parts@) =~= done.push(cur));
            assert(next == done.push(cur).push(Seq::empty()));
            assert(line@.subrange(start as int, start as int) =~= Seq::<char>::empty());
        } else {
            assert(line@.subrange(start as int, i + 1) =~= cur.push(c));
            assert(next == done.push(cur).update(done.len() as int, cur.push(c)));
            assert(next =~= done.push(cur.push(c)));
        }
        i = i + 1;
        assert(views(parts@).push(line@.subrange(start as int, i as int)) =~= split_fields(
            line@.take(i as int),
        ));
    }
    parts.push(line.substring_char(start, i));
    assert(line@.take(i as int) == line@);
    assert(views(parts@) =~= split_fields(line@));
    parts
}

/// A text field: one pair of surrounding double quotes is removed when both
/// are present; anything else passes through unchanged.
pub open spec fn text_of(f: Seq<char>) -> Seq<char> {
    if f.len() >= 2 && f[0] == '"' && f.last() == '"' {
        f.subrange(1, f.len() - 1)
    } else {
        f
    }
}

pub open spec fn is_digit(c: char) -> bool {
    '0' <= c <= '9'
}

pub open spec fn all_digits(s: Seq<char>) -> bool {
    forall|i: int| 0 <= i < s.len() ==> is_digit(#[trigger] s[i])
}

/// The value of a string of decimal digits, most significant first.
pub open spec fn decimal_value(s: Seq<char>) -> nat
    decreases s.len(),
{
    if s.len() == 0 {
        0
    } else {
        decimal_value(s.drop_last()) * 10 + (s.last() as nat - '0' as nat) as nat
    }
}

/// An unsigned integer field no larger than `max`: one or more ASCII digits
/// and nothing else (no sign, no spaces, no quotes).
pub open spec fn uint_in(f: Seq<char>, max: nat) -> Option<nat> {
    if f.len() > 0 && all_digits(f) && decimal_value(f) <= max {
        Some(decimal_value(f))
    } else {
        None
    }
}

/// An optional unsigned integer field: empty means absent; anything else
/// must be a valid integer no larger than `max`.
pub open spec fn opt_uint_in(f: Seq<char>, max: nat) -> Option<Option<nat>> {
    if f.len() == 0 {
        Some(None)
    } else {
        match uint_in(f, max) {
            Some(v) => Some(Some(v)),
            None => None,
        }
    }
}

/// A digit appended to a string of digits never lowers its value.
pub proof fn lemma_decimal_value_grows(s: Seq<char>, c: char)
    requires
        is_digit(c),
    ensures
        decimal_value(s.push(c)) >= decimal_value(s),
{
    assert(s.push(c).drop_last() =~= s);
}

/// Decodes a text field.
pub fn decode_text(f: &str) -> (r: String)
    ensures
        r@ == text_of(f@),
{
    let n = f.unicode_len();
    if n >= 2 && f.get_char(0) == '"' && f.get_char(n - 1) == '"' {
        f.substring_char(1, n - 1).to_owned()
    } else {
        f.to_owned()
    }
}

/// Decodes an unsigned integer field no larger than `max`.
pub fn decode_uint(f: &str, max: u64) -> (r: Option<u64>)
    ensures
        match r {
            Some(v) => uint_in(f@, max as nat) == Some(v as nat),
            None => uint_in(f@, max as nat) is None,
        },
{
    let n = f.unicode_len();
    let mut acc: u64 = 0;
    let mut ok = true;
    let mut i: usize = 0;
    assert(f@.take(0) =~= Seq::<char>::empty());
    for c in it: f.chars()
        invariant
            i == it.index(),
            it.seq() == f@,
            n == f@.len(),
            i <= n,
            ok ==> all_digits(f@.take(i as int)) && acc == decimal_value(f@.take(i as int)) && acc
                <= max,
            !ok ==> (exists|j: int| 0 <= j < i && !is_digit(#[trigger] f@[j])) || (all_digits(
                f@.take(i as int),
            ) && decimal_value(f@.take(i as int)) > max),
    {
        assert(i < n);
        assert(c == f@[i as int]);
        let ghost pre = f@.take(i as int);
        assert(f@.take(i + 1) =~= pre.push(c));
        if '0' <= c && c <= '9' {
            proof { lemma_decimal_value_grows(pre, c); }
            assert(pre.push(c).drop_last() =~= pre);
            assert(decimal_value(f@.take(i + 1)) == decimal_value(pre) * 10 + (c as nat - '0' as nat));
            if ok {
                let d = (c as u32 - '0' as u32) as u64;
                match acc.checked_mul(10) {
                    Some(m) => match m.checked_add(d) {
                        Some(v) => {
                            acc = v;
                            ok = v <= max;
                        },
                        None => {
                            ok = false;
                        },
                    },
                    None => {
                        ok = false;
                    },
                }
            }
            assert(all_digits(pre) ==> all_digits(f@.take(i + 1))) by {
                if all_digits(pre) {
                    assert forall|j: int| 0 <= j < i + 1 implies is_digit(#[trigger] f@.take(i + 1)[j]) by {
                        if j < i {
                            assert(f@.take(i + 1)[j] == pre[j]);
                        }
                    }
                }
            }
        } else {
            ok = false;
            assert(!is_digit(f@[i as int]));
        }
        i = i + 1;
    }
    assert(f@.take(n as int) =~= f@);
    if ok && n > 0 {
        Some(acc)
    } else {
        None
    }
}

/// Compares two strings character by character.
pub fn same_text(a: &str, b: &str) -> (r: bool)
    ensures
        r == (a@ == b@),
{
    let n = a.unicode_len();
    if n != b.unicode_len() {
        return false;
    }
    let mut i: usize = 0;
    while i < n
        invariant
            n == a@.len(),
            n == b@.len(),
            i <= n,
            forall|j: int| 0 <= j < i ==> a@[j] == b@[j],
        decreases n - i,
    {
        if a.get_char(i) != b.get_char(i) {
            return false;
        }
        i = i + 1;
    }
    assert(a@ =~= b@);
    true
}

} // verus!
