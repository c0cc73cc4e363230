//! Text as bytes: fields, lines and numbers.

use vstd::prelude::*;

verus! {

/// Where `mark` first occurs in `s`, or the length of `s` where it does not.
pub open spec fn first_index(s: Seq<u8>, mark: u8) -> int
    decreases s.len(),
{
    if s.len() == 0 {
        0
    } else if s[0] == mark {
        0
    } else {
        1 + first_index(s.skip(1), mark)
    }
}

/// The parts of `s` between the occurrences of `mark`. There is always at
/// least one part; a part may be empty.
pub open spec fn fields(s: Seq<u8>, mark: u8) -> Seq<Seq<u8>>
    decreases s.len(),
    via fields_decreases
{
    let k = first_index(s, mark);
    if k >= s.len() {
        seq![s]
    } else {
        seq![s.take(k)] + fields(s.skip(k + 1), mark)
    }
}

#[via_fn]
proof fn fields_decreases(s: Seq<u8>, mark: u8) {
    lemma_first_index(s, mark);
}

/// `first_index` lies within the text, nothing before it is the mark, and
/// the byte at it is.
pub proof fn lemma_first_index(s: Seq<u8>, mark: u8)
    ensures
        0 <= first_index(s, mark) <= s.len(),
        forall|j: int| 0 <= j < first_index(s, mark) ==> s[j] != mark,
        first_index(s, mark) < s.len() ==> s[first_index(s, mark)] == mark,
    decreases s.len(),
{
    if s.len() > 0 && s[0] != mark {
        lemma_first_index(s.skip(1), mark);
        let k = first_index(s.skip(1), mark);
        assert forall|j: int| 0 <= j < 1 + k implies s[j] != mark by {
            if j > 0 {
                assert(s.skip(1)[j - 1] == s[j]);
            }
        }
        if k < s.len() - 1 {
            assert(s.skip(1)[k] == s[k + 1]);
        }
    }
}

/// The index at which the mark is found first is `first_index`.
pub proof fn lemma_first_index_is(s: Seq<u8>, mark: u8, k: int)
    requires
        0 <= k <= s.len(),
        forall|j: int| 0 <= j < k ==> s[j] != mark,
        k < s.len() ==> s[k] == mark,
    ensures
        first_index(s, mark) == k,
{
    lemma_first_index(s, mark);
    let f = first_index(s, mark);
    if f < k {
        assert(s[f] == mark);
    } else if k < f {
        assert(s[k] == mark);
    }
}

/// The lines of a text: its parts between line feeds, each without a
/// carriage return at its end. A text that ends in a line feed has no empty
/// line after it.
pub open spec fn lines(text: Seq<u8>) -> Seq<Seq<u8>> {
    let parts = fields(text, 10u8);
    let kept = if parts.last().len() == 0 {
        parts.drop_last()
    } else {
        parts
    };
    kept.map_values(|line: Seq<u8>| trimmed(line))
}

/// The line without a carriage return at its end.
pub open spec fn trimmed(line: Seq<u8>) -> Seq<u8> {
    if line.len() > 0 && line.last() == 13u8 {
        line.drop_last()
    } else {
        line
    }
}

/// The views of the byte strings.
pub open spec fn views(parts: Seq<Vec<u8>>) -> Seq<Seq<u8>> {
    parts.map_values(|part: Vec<u8>| part@)
}

/// Splits a text at every occurrence of `mark`.
pub fn split(text: &[u8], mark: u8) -> (res: Vec<Vec<u8>>)
    ensures
        views(res@) == fields(text@, mark),
        res@.len() >= 1,
{
    let mut out: Vec<Vec<u8>> = Vec::new();
    let mut current: Vec<u8> = Vec::new();
    let mut start: usize = 0;
    let mut i: usize = 0;
    assert(text@.skip(0) == text@);
    assert(views(out@) + fields(text@.skip(0), mark) == fields(text@, mark));
    while i < text.len()
        invariant
            start <= i <= text.len(),
            current@ == text@.subrange(start as int, i as int),
            forall|j: int| start <= j < i ==> text@[j] != mark,
            views(out@) + fields(text@.skip(start as int), mark) == fields(text@, mark),
        decreases text.len() - i,
    {
        let byte = text[i];
        if byte == mark {
            proof {
                let rest = text@.skip(start as int);
                assert forall|j: int| 0 <= j < i - start implies rest[j] != mark by {
                    assert(rest[j] == text@[start + j]);
                }
                lemma_first_index_is(rest, mark, i - start);
                assert(rest.take(i - start) == current@);
                assert(rest.skip(i - start + 1) == text@.skip(i + 1));
                assert(views(out@.push(current)) == views(out@).push(current@));
                assert(views(out@).push(current@) + fields(text@.skip(i + 1), mark) == views(out@)
                    + (seq![current@] + fields(text@.skip(i + 1), mark)));
            }
            out.push(current);
            current = Vec::new();
            start = i + 1;
            i = i + 1;
            assert(current@ == text@.subrange(start as int, i as int));
        } else {
            current.push(byte);
            i = i + 1;
            assert(current@ == text@.subrange(start as int, i as int));
        }
    }
    proof {
        let rest = text@.skip(start as int);
        assert forall|j: int| 0 <= j < rest.len() implies rest[j] != mark by {
            assert(rest[j] == text@[start + j]);
        }
        lemma_first_index_is(rest, mark, rest.len() as int);
        assert(rest == current@);
        assert(views(out@.push(current)) == views(out@).push(current@));
        assert(views(out@).push(current@) == views(out@) + seq![current@]);
    }
    out.push(current);
    out
}

/// Splits a text into its lines.
pub fn split_lines(text: &[u8]) -> (res: Vec<Vec<u8>>)
    ensures
        views(res@) == lines(text@),
{
    let mut parts = split(text, 10);
    let ghost whole = views(parts@);
    let last = parts.len() - 1;
    if parts[last].len() == 0 {
        let _ = parts.pop();
        assert(views(parts@) == whole.drop_last());
    }
    let ghost kept = views(parts@);
    let mut k: usize = 0;
    while k < parts.len()
        invariant
            k <= parts.len(),
            parts@.len() == kept.len(),
            forall|j: int| 0 <= j < k ==> (#[trigger] parts@[j])@ == trimmed(kept[j]),
            forall|j: int| k <= j < parts.len() ==> (#[trigger] parts@[j])@ == kept[j],
        decreases parts.len() - k,
    {
        let n = parts[k].len();
        if n > 0 && parts[k][n - 1] == 13 {
            let ghost before = parts@;
            let mut line: Vec<u8> = Vec::new();
            let mut j: usize = 0;
            while j < n - 1
                invariant
                    k < parts.len(),
                    parts@ == before,
                    n == parts@[k as int]@.len(),
                    j <= n - 1,
                    line@ == parts@[k as int]@.take(j as int),
                decreases n - 1 - j,
            {
                line.push(parts[k][j]);
                assert(parts@[k as int]@.take(j + 1) == parts@[k as int]@.take(j as int).push(
                    parts@[k as int]@[j as int],
                ));
                j = j + 1;
            }
            assert(line@ == before[k as int]@.drop_last());
            parts[k] = line;
        }
        k = k + 1;
    }
    assert(views(parts@) =~= kept.map_values(|line: Seq<u8>| trimmed(line)));
    parts
}

/// The number that decimal digits stand for, or `None` where a byte is no
/// digit.
pub open spec fn digits_value(s: Seq<u8>) -> Option<nat>
    decreases s.len(),
{
    if s.len() == 0 {
        Some(0nat)
    } else if 48 <= s.last() <= 57 {
        match digits_value(s.drop_last()) {
            Some(v) => Some(v * 10 + (s.last() - 48) as nat),
            None => None,
        }
    } else {
        None
    }
}

/// The number that a text stands for: decimal digits, at least one, with
/// or without a plus sign before them, and no larger than the machine's
/// largest.
pub open spec fn number(s: Seq<u8>) -> Option<nat> {
    let body = if s.len() > 0 && s[0] == 43u8 {
        s.skip(1)
    } else {
        s
    };
    if body.len() == 0 {
        None
    } else {
        match digits_value(body) {
            Some(v) => if v <= usize::MAX {
                Some(v)
            } else {
                None
            },
            None => None,
        }
    }
}

/// A number grows with its digits: a prefix stands for no more.
proof fn lemma_digits_grow(s: Seq<u8>, k: int)
    requires
        0 <= k <= s.len(),
        digits_value(s) is Some,
    ensures
        digits_value(s.take(k)) is Some,
        digits_value(s.take(k))->Some_0 <= digits_value(s)->Some_0,
    decreases s.len() - k,
{
    if k == s.len() {
        assert(s.take(k) == s);
    } else {
        assert(s.drop_last().take(k) == s.take(k));
        lemma_digits_grow(s.drop_last(), k);
    }
}

/// Where a prefix is no number, the whole is none.
proof fn lemma_digits_fail(s: Seq<u8>, k: int)
    requires
        0 <= k <= s.len(),
        digits_value(s.take(k)) is None,
    ensures
        digits_value(s) is None,
    decreases s.len() - k,
{
    if k == s.len() {
        assert(s.take(k) == s);
    } else {
        assert(s.drop_last().take(k) == s.take(k));
        lemma_digits_fail(s.drop_last(), k);
    }
}

/// Reads a number.
pub fn parse_number(text: &[u8]) -> (res: Option<usize>)
    ensures
        match number(text@) {
            Some(v) => res == Some(v as usize),
            None => res is None,
        },
{
    let mut i: usize = 0;
    if text.len() > 0 && text[0] == 43 {
        i = 1;
    }
    let first = i;
    let ghost body = text@.skip(first as int);
    assert(text@.skip(0) == text@);
    if i == text.len() {
        return None;
    }
    let mut value: usize = 0;
    assert(body.take(0) == Seq::<u8>::empty());
    while i < text.len()
        invariant
            first <= i <= text.len(),
            body == text@.skip(first as int),
            body.len() > 0,
            body == if text@.len() > 0 && text@[0] == 43u8 {
                text@.skip(1)
            } else {
                text@
            },
            digits_value(body.take(i - first)) == Some(value as nat),
        decreases text.len() - i,
    {
        let byte = text[i];
        let ghost longer = body.take(i - first + 1);
        assert(longer.drop_last() == body.take(i - first));
        assert(longer.last() == byte);
        if byte < 48 || byte > 57 {
            proof {
                lemma_digits_fail(body, i - first + 1);
            }
            return None;
        }
        let digit: usize = (byte - 48) as usize;
        if value > (usize::MAX - digit) / 10 {
            proof {
                assert(value * 10 + digit > usize::MAX);
                assert(digits_value(longer) == Some((value * 10 + digit) as nat));
                if digits_value(body) is Some {
                    lemma_digits_grow(body, i - first + 1);
                }
            }
            return None;
        }
        value = value * 10 + digit;
        i = i + 1;
    }
    assert(body.take(i - first) == body);
    Some(value)
}

} // verus!
