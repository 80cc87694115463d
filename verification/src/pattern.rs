//! Searching, replacing and trimming text.
use vstd::prelude::*;
use vstd::string::*;

verus! {

/// `s` with every occurrence of `from` replaced by `to`: occurrences are taken from the left and
/// do not overlap.
pub open spec fn replace_all(s: Seq<char>, from: Seq<char>, to: Seq<char>) -> Seq<char>
    decreases s.len(),
{
    if from.len() == 0 || s.len() < from.len() {
        s
    } else if from.is_prefix_of(s) {
        to + replace_all(s.skip(from.len() as int), from, to)
    } else {
        seq![s[0]] + replace_all(s.drop_first(), from, to)
    }
}

/// Whether `pattern` stands in `s` at index `i`.
pub open spec fn occurs_at(s: Seq<char>, pattern: Seq<char>, i: int) -> bool {
    0 <= i && i + pattern.len() <= s.len() && s.subrange(i, i + pattern.len()) == pattern
}

/// The characters with the Unicode property `White_Space`.
pub open spec fn is_white_space(c: char) -> bool {
    ||| '\u{9}' <= c <= '\u{d}'
    ||| c == '\u{20}'
    ||| c == '\u{85}'
    ||| c == '\u{a0}'
    ||| c == '\u{1680}'
    ||| '\u{2000}' <= c <= '\u{200a}'
    ||| c == '\u{2028}'
    ||| c == '\u{2029}'
    ||| c == '\u{202f}'
    ||| c == '\u{205f}'
    ||| c == '\u{3000}'
}

/// `s` without the white space at its end.
pub open spec fn trim_end(s: Seq<char>) -> Seq<char>
    decreases s.len(),
{
    if s.len() > 0 && is_white_space(s.last()) {
        trim_end(s.drop_last())
    } else {
        s
    }
}

/// The index of the first `c` in `s`, or the length of `s` when there is none.
pub open spec fn first_index(s: Seq<char>, c: char) -> int
    decreases s.len(),
{
    if s.len() == 0 || s[0] == c {
        0
    } else {
        1 + first_index(s.drop_first(), c)
    }
}

/// The characters of `s`.
pub fn chars_of(s: &str) -> (r: Vec<char>)
    ensures
        r@ == s@,
{
    let mut r: Vec<char> = Vec::new();
    for c in it: s.chars()
        invariant
            it.seq() == s@,
            r@ == s@.take(it.index() as int),
    {
        r.push(c);
    }
    assert(s@.take(s@.len() as int) =~= s@);
    r
}

/// Whether `pattern` stands in `chars` at index `i`.
fn matches_at(chars: &Vec<char>, pattern: &Vec<char>, i: usize) -> (r: bool)
    ensures
        r == occurs_at(chars@, pattern@, i as int),
{
    if i > chars.len() || pattern.len() > chars.len() - i {
        return false;
    }
    let mut k: usize = 0;
    while k < pattern.len()
        invariant
            k <= pattern.len(),
            i + pattern.len() <= chars.len(),
            forall|j: int| 0 <= j < k ==> chars@[i + j] == pattern@[j],
        decreases pattern.len() - k,
    {
        if chars[i + k] != pattern[k] {
            assert(chars@.subrange(i as int, i + pattern.len())[k as int] != pattern@[k as int]);
            return false;
        }
        k += 1;
    }
    assert(chars@.subrange(i as int, i + pattern.len()) =~= pattern@);
    true
}

/// Whether `s` starts with `prefix`.
pub fn starts_with(s: &str, prefix: &str) -> (r: bool)
    ensures
        r == prefix@.is_prefix_of(s@),
{
    let chars = chars_of(s);
    let pattern = chars_of(prefix);
    matches_at(&chars, &pattern, 0)
}

/// Replaces every occurrence of `from` in `s` by `to`.
pub fn replace(s: &str, from: &str, to: &str) -> (r: String)
    requires
        from@.len() > 0,
    ensures
        r@ == replace_all(s@, from@, to@),
{
    let chars = chars_of(s);
    let pattern = chars_of(from);
    let n: usize = chars.len();
    let mut r = String::new();
    // `s[..copied]` has been dealt with in `r`; `s[copied..i]` holds no occurrence.
    let mut copied: usize = 0;
    let mut i: usize = 0;
    assert(s@.skip(0) =~= s@);
    assert(s@.subrange(0, 0) =~= seq![]);
    while pattern.len() <= n - i
        invariant
            chars@ == s@,
            pattern@ == from@,
            from@.len() > 0,
            n == s@.len(),
            copied <= i <= n,
            r@ + s@.subrange(copied as int, i as int) + replace_all(s@.skip(i as int), from@, to@)
                == replace_all(s@, from@, to@),
        decreases n - i,
    {
        let ghost rest = s@.skip(i as int);
        if matches_at(&chars, &pattern, i) {
            proof {
                assert(rest.subrange(0, from@.len() as int) =~= s@.subrange(
                    i as int,
                    i + from@.len(),
                ));
                assert(from@.is_prefix_of(rest));
                assert(rest.skip(from@.len() as int) =~= s@.skip(i + from@.len()));
            }
            r.append(s.substring_char(copied, i));
            r.append(to);
            i += pattern.len();
            copied = i;
            proof {
                let tail = replace_all(s@.skip(i as int), from@, to@);
                assert(s@.subrange(copied as int, i as int) =~= seq![]);
                assert(r@ + seq![] + tail =~= replace_all(s@, from@, to@));
            }
        } else {
            proof {
                if from@.is_prefix_of(rest) {
                    assert(s@.subrange(i as int, i + from@.len()) =~= rest.subrange(
                        0,
                        from@.len() as int,
                    ));
                }
                assert(rest.drop_first() =~= s@.skip(i + 1));
                assert(rest[0] == s@[i as int]);
                let tail = replace_all(s@.skip(i + 1), from@, to@);
                assert(r@ + s@.subrange(copied as int, i + 1) + tail =~= r@ + s@.subrange(
                    copied as int,
                    i as int,
                ) + (seq![s@[i as int]] + tail));
            }
            i += 1;
        }
    }
    r.append(s.substring_char(copied, n));
    proof {
        let rest = s@.skip(i as int);
        assert(r@ =~= r@.take(r@.len() - (n - copied)) + s@.subrange(copied as int, i as int)
            + rest);
    }
    r
}

/// Whether `c` has the Unicode property `White_Space`.
pub fn white_space(c: char) -> (r: bool)
    ensures
        r == is_white_space(c),
{
    ('\u{9}' <= c && c <= '\u{d}') || c == '\u{20}' || c == '\u{85}' || c == '\u{a0}' || c
        == '\u{1680}' || ('\u{2000}' <= c && c <= '\u{200a}') || c == '\u{2028}' || c == '\u{2029}'
        || c == '\u{202f}' || c == '\u{205f}' || c == '\u{3000}'
}

/// How many characters of `s` are left once the white space at its end is gone.
fn trimmed_len(chars: &Vec<char>) -> (r: usize)
    ensures
        r <= chars.len(),
        chars@.take(r as int) == trim_end(chars@),
{
    let mut n: usize = chars.len();
    assert(chars@.take(n as int) =~= chars@);
    while n > 0 && white_space(chars[n - 1])
        invariant
            n <= chars.len(),
            trim_end(chars@.take(n as int)) == trim_end(chars@),
        decreases n,
    {
        assert(chars@.take(n as int).drop_last() =~= chars@.take(n - 1));
        n -= 1;
    }
    n
}

/// `s` without the white space at its end.
pub fn trim_end_of(s: &str) -> (r: &str)
    ensures
        r@ == trim_end(s@),
{
    let chars = chars_of(s);
    let n: usize = trimmed_len(&chars);
    s.substring_char(0, n)
}

/// What stands in `s` before `suffix`, if `s` ends with it.
pub fn strip_suffix<'a>(s: &'a str, suffix: &str) -> (r: Option<&'a str>)
    ensures
        match r {
            Some(head) => suffix@.is_suffix_of(s@) && head@ == s@.take(s@.len() - suffix@.len()),
            None => !suffix@.is_suffix_of(s@),
        },
{
    let chars = chars_of(s);
    let pattern = chars_of(suffix);
    if pattern.len() > chars.len() {
        return None;
    }
    let cut: usize = chars.len() - pattern.len();
    if matches_at(&chars, &pattern, cut) {
        Some(s.substring_char(0, cut))
    } else {
        None
    }
}

/// What stands in `s` behind the first `c`, if there is one.
pub fn after_first<'a>(s: &'a str, c: char) -> (r: Option<&'a str>)
    ensures
        match r {
            Some(tail) => first_index(s@, c) < s@.len() && tail@ == s@.skip(first_index(s@, c) + 1),
            None => first_index(s@, c) == s@.len(),
        },
{
    let chars = chars_of(s);
    let n: usize = chars.len();
    let mut i: usize = 0;
    assert(s@.skip(0) =~= s@);
    while i < n
        invariant
            i <= n,
            n == s@.len(),
            chars@ == s@,
            first_index(s@, c) == i + first_index(s@.skip(i as int), c),
        decreases n - i,
    {
        assert(s@.skip(i as int)[0] == s@[i as int]);
        if chars[i] == c {
            let tail = s.substring_char(i + 1, n);
            assert(tail@ =~= s@.skip(i + 1));
            return Some(tail);
        }
        assert(s@.skip(i as int).drop_first() =~= s@.skip(i + 1));
        i += 1;
    }
    None
}

} // verus!
