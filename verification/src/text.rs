//! Small verified helpers for character strings: comparison, truncation
//! with an ellipsis, and rendering integers and currency amounts.

use vstd::prelude::*;

verus! {

/// Compare two string slices character by character.
pub fn str_eq(a: &str, b: &str) -> (r: bool)
    ensures
        r == (a@ == b@),
{
    let alen = a.unicode_len();
    let blen = b.unicode_len();
    if alen != blen {
        assert(a@ != b@) by {
            assert(a@.len() != b@.len());
        }
        return false;
    }
    let mut i: usize = 0;
    while i < alen
        invariant
            i <= alen,
            alen == a@.len(),
            alen == b@.len(),
            forall|j: int| 0 <= j < i ==> a@[j] == b@[j],
        decreases alen - i,
    {
        if a.get_char(i) != b.get_char(i) {
            return false;
        }
        i = i + 1;
    }
    proof {
        assert(a@ =~= b@);
    }
    true
}

/// What a string looks like after being cut to at most `n` characters,
/// with `...` marking the cut.
pub open spec fn spec_truncate(s: Seq<char>, n: int) -> Seq<char> {
    if s.len() > n {
        s.take(n) + "..."@
    } else {
        s
    }
}

/// Cut a string to at most `n` characters, appending `...` when it was longer.
pub fn truncate_chars(s: &str, n: usize) -> (r: String)
    ensures
        r@ == spec_truncate(s@, n as int),
{
    let len = s.unicode_len();
    if len > n {
        let head = s.substring_char(0, n);
        let mut out = String::from_str(head);
        out.append("...");
        proof {
            assert(s@.subrange(0, n as int) =~= s@.take(n as int));
        }
        out
    } else {
        String::from_str(s)
    }
}

/// The decimal digit characters, lowest first.
pub open spec fn spec_digit(d: int) -> char {
    "0123456789"@[d]
}

/// The decimal rendering of a natural number, without sign.
pub open spec fn spec_u64_str(n: nat) -> Seq<char>
    decreases n,
{
    if n < 10 {
        seq![spec_digit(n as int)]
    } else {
        spec_u64_str(n / 10) + seq![spec_digit((n % 10) as int)]
    }
}

/// Append the decimal rendering of `n` to `out`.
fn push_u64(out: &mut String, n: u64)
    ensures
        final(out)@ == old(out)@ + spec_u64_str(n as nat),
    decreases n,
{
    let digits = "0123456789";
    proof {
        reveal_strlit("0123456789");
    }
    if n < 10 {
        let d = digits.substring_char(n as usize, n as usize + 1);
        proof {
            assert(d@ =~= seq![spec_digit(n as int)]);
        }
        out.append(d);
    } else {
        push_u64(out, n / 10);
        let r = n % 10;
        let d = digits.substring_char(r as usize, r as usize + 1);
        proof {
            assert(d@ =~= seq![spec_digit((n % 10) as int)]);
        }
        out.append(d);
    }
}

/// Render a natural number in decimal.
pub fn u64_to_string(n: u64) -> (r: String)
    ensures
        r@ == spec_u64_str(n as nat),
{
    let mut out = String::new();
    push_u64(&mut out, n);
    proof {
        assert(out@ =~= spec_u64_str(n as nat));
    }
    out
}

/// The decimal rendering of a signed number.
pub open spec fn spec_i64_str(n: int) -> Seq<char> {
    if n < 0 {
        seq!['-'] + spec_u64_str((-n) as nat)
    } else {
        spec_u64_str(n as nat)
    }
}

/// Render a signed number in decimal.
pub fn i64_to_string(n: i64) -> (r: String)
    ensures
        r@ == spec_i64_str(n as int),
{
    if n < 0 {
        let mut out = String::from_str("-");
        let mag: u64 = if n == i64::MIN {
            9223372036854775808u64
        } else {
            (-n) as u64
        };
        proof {
            reveal_strlit("-");
            assert(mag as nat == (-(n as int)) as nat);
        }
        push_u64(&mut out, mag);
        out
    } else {
        u64_to_string(n as u64)
    }
}

/// A currency amount of `micros` millionths, rendered as dollars with a
/// leading `$` and four decimal places (sub-hundredth-of-a-cent digits
/// are dropped).
pub open spec fn spec_usd4(micros: nat) -> Seq<char> {
    "$"@ + spec_u64_str(micros / 1000000) + "."@ + seq![
        spec_digit(((micros / 100000) % 10) as int),
        spec_digit(((micros / 10000) % 10) as int),
        spec_digit(((micros / 1000) % 10) as int),
        spec_digit(((micros / 100) % 10) as int),
    ]
}

/// Render a micro-dollar amount as `$D.DDDD`.
pub fn format_usd4(micros: u64) -> (r: String)
    ensures
        r@ == spec_usd4(micros as nat),
{
    let mut out = String::from_str("$");
    push_u64(&mut out, micros / 1000000);
    out.append(".");
    let digits = "0123456789";
    proof {
        reveal_strlit("0123456789");
    }
    let d1 = ((micros / 100000) % 10) as usize;
    let d2 = ((micros / 10000) % 10) as usize;
    let d3 = ((micros / 1000) % 10) as usize;
    let d4 = ((micros / 100) % 10) as usize;
    out.append(digits.substring_char(d1, d1 + 1));
    out.append(digits.substring_char(d2, d2 + 1));
    out.append(digits.substring_char(d3, d3 + 1));
    out.append(digits.substring_char(d4, d4 + 1));
    proof {
        assert(out@ =~= spec_usd4(micros as nat));
    }
    out
}


/// The position of the first occurrence of `c` in a text, if any.
pub open spec fn spec_find_char(s: Seq<char>, c: char) -> Option<int>
    decreases s.len(),
{
    if s.len() == 0 {
        None
    } else if s[0] == c {
        Some(0)
    } else {
        match spec_find_char(s.drop_first(), c) {
            Some(i) => Some(i + 1),
            None => None,
        }
    }
}

pub proof fn lemma_find_char_at(s: Seq<char>, c: char, i: int)
    requires
        0 <= i < s.len(),
        s[i] == c,
        forall|j: int| 0 <= j < i ==> s[j] != c,
    ensures
        spec_find_char(s, c) == Some(i),
    decreases i,
{
    if i > 0 {
        lemma_find_char_at(s.drop_first(), c, i - 1);
    }
}

pub proof fn lemma_find_char_none(s: Seq<char>, c: char)
    requires
        forall|j: int| 0 <= j < s.len() ==> s[j] != c,
    ensures
        spec_find_char(s, c) is None,
    decreases s.len(),
{
    if s.len() > 0 {
        lemma_find_char_none(s.drop_first(), c);
    }
}

/// Find the first occurrence of a character.
pub fn find_char(s: &str, c: char) -> (r: Option<usize>)
    ensures
        match r {
            Some(i) => spec_find_char(s@, c) == Some(i as int) && i < s@.len() && s@[i as int]
                == c,
            None => spec_find_char(s@, c) is None,
        },
{
    let len = s.unicode_len();
    let mut i: usize = 0;
    while i < len
        invariant
            i <= len,
            len == s@.len(),
            forall|j: int| 0 <= j < i ==> s@[j] != c,
        decreases len - i,
    {
        if s.get_char(i) == c {
            proof {
                lemma_find_char_at(s@, c, i as int);
            }
            return Some(i);
        }
        i = i + 1;
    }
    proof {
        lemma_find_char_none(s@, c);
    }
    None
}

/// The lines of a text, split at newline characters; a trailing newline
/// adds no empty line.
pub open spec fn spec_lines(s: Seq<char>) -> Seq<Seq<char>>
    decreases s.len(),
{
    if s.len() == 0 {
        Seq::empty()
    } else {
        match spec_find_char(s, '\n') {
            Some(i) => if 0 <= i < s.len() {
                seq![s.take(i)] + spec_lines(s.skip(i + 1))
            } else {
                seq![s]
            },
            None => seq![s],
        }
    }
}

/// Split a text into its lines.
pub fn split_lines(s: &str) -> (r: Vec<String>)
    ensures
        r@.map_values(|x: String| x@) == spec_lines(s@),
{
    let mut out: Vec<String> = Vec::new();
    let mut pos: usize = 0;
    let len = s.unicode_len();
    proof {
        assert(s@.skip(0) =~= s@);
        assert(out@.map_values(|x: String| x@) + spec_lines(s@) =~= spec_lines(s@));
    }
    while pos < len
        invariant
            pos <= len,
            len == s@.len(),
            out@.map_values(|x: String| x@) + spec_lines(s@.skip(pos as int)) == spec_lines(s@),
        decreases len - pos,
    {
        let ghost rest = s@.skip(pos as int);
        let tail = s.substring_char(pos, len);
        assert(tail@ =~= rest);
        match find_char(tail, '\n') {
            Some(i) => {
                let piece = s.substring_char(pos, pos + i);
                assert(piece@ =~= rest.take(i as int));
                out.push(piece.to_owned());
                proof {
                    assert(rest.skip(i as int + 1) =~= s@.skip(pos + i + 1));
                    assert(out@.map_values(|x: String| x@) =~= old_map(out@).drop_last().push(
                        rest.take(i as int),
                    ));
                    assert(out@.map_values(|x: String| x@) + spec_lines(s@.skip(pos + i + 1))
                        =~= spec_lines(s@));
                }
                pos = pos + i + 1;
            },
            None => {
                out.push(tail.to_owned());
                proof {
                    assert(out@.map_values(|x: String| x@) + spec_lines(
                        s@.skip(len as int),
                    ) =~= spec_lines(s@));
                }
                pos = len;
            },
        }
    }
    proof {
        assert(s@.skip(pos as int) =~= Seq::<char>::empty());
        assert(out@.map_values(|x: String| x@) =~= spec_lines(s@));
    }
    out
}

/// The mapped views of a string sequence (helper for proofs above).
pub open spec fn old_map(s: Seq<String>) -> Seq<Seq<char>> {
    s.map_values(|x: String| x@)
}

/// Whether `needle` occurs anywhere in `s`.
pub open spec fn spec_str_contains(s: Seq<char>, needle: Seq<char>) -> bool {
    exists|k: int|
        0 <= k && k + needle.len() <= s.len() && #[trigger] s.subrange(
            k,
            k + needle.len() as int,
        ) == needle
}

/// Whether one string occurs inside another.
pub fn str_contains(s: &str, needle: &str) -> (r: bool)
    ensures
        r == spec_str_contains(s@, needle@),
{
    let slen = s.unicode_len();
    let nlen = needle.unicode_len();
    if nlen > slen {
        return false;
    }
    if nlen == 0 {
        assert(spec_str_contains(s@, needle@)) by {
            assert(s@.subrange(0, 0 + needle@.len() as int) =~= needle@);
        }
        return true;
    }
    let mut k: usize = 0;
    while k <= slen - nlen
        invariant
            1 <= nlen <= slen,
            k <= slen - nlen + 1,
            slen == s@.len(),
            nlen == needle@.len(),
            forall|j: int|
                0 <= j < k ==> #[trigger] s@.subrange(j, j + needle@.len() as int) != needle@,
        decreases slen - nlen - k + 1,
    {
        let piece = s.substring_char(k, k + nlen);
        if str_eq(piece, needle) {
            assert(s@.subrange(k as int, k as int + needle@.len() as int) == needle@);
            return true;
        }
        k = k + 1;
    }
    assert forall|j: int| 0 <= j && j + needle@.len() <= s@.len() implies #[trigger] s@.subrange(
        j,
        j + needle@.len() as int,
    ) != needle@ by {
        assert(j < k);
    }
    false
}

} // verus!
