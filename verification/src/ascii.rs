//! Byte-sequence utilities for the protocol logic: whitespace trimming,
//! substring search, splitting on a delimiter, whitespace tokenization,
//! and decimal rendering of lengths.
use vstd::prelude::*;
use vstd::string::StringSliceAdditionalSpecFns;

verus! {

/// ASCII space or horizontal tab: the whitespace trimmed around header
/// names and values and separating the request-line tokens.
pub open spec fn is_space(b: u8) -> bool {
    b == 32 || b == 9
}

pub open spec fn trim_start_spec(s: Seq<u8>) -> Seq<u8>
    decreases s.len(),
{
    if s.len() > 0 && is_space(s[0]) {
        trim_start_spec(s.drop_first())
    } else {
        s
    }
}

pub open spec fn trim_end_spec(s: Seq<u8>) -> Seq<u8>
    decreases s.len(),
{
    if s.len() > 0 && is_space(s[s.len() - 1]) {
        trim_end_spec(s.drop_last())
    } else {
        s
    }
}

/// The byte sequence with leading and trailing spaces and tabs removed.
pub open spec fn trim_spec(s: Seq<u8>) -> Seq<u8> {
    trim_end_spec(trim_start_spec(s))
}

proof fn lemma_trim_start_skip(s: Seq<u8>, i: int)
    requires
        0 <= i <= s.len(),
        forall|j: int| 0 <= j < i ==> is_space(s[j]),
    ensures
        trim_start_spec(s) == trim_start_spec(s.subrange(i, s.len() as int)),
    decreases i,
{
    if i == 0 {
        assert(s.subrange(0, s.len() as int) =~= s);
    } else {
        assert(is_space(s[0]));
        assert(s.drop_first() =~= s.subrange(1, s.len() as int));
        lemma_trim_start_skip(s.drop_first(), i - 1);
        assert(s.drop_first().subrange(i - 1, s.drop_first().len() as int) =~= s.subrange(
            i,
            s.len() as int,
        ));
    }
}

proof fn lemma_trim_end_skip(s: Seq<u8>, i: int)
    requires
        0 <= i <= s.len(),
        forall|j: int| i <= j < s.len() ==> is_space(s[j]),
    ensures
        trim_end_spec(s) == trim_end_spec(s.subrange(0, i)),
    decreases s.len() - i,
{
    if i == s.len() {
        assert(s.subrange(0, s.len() as int) =~= s);
    } else {
        assert(is_space(s[s.len() - 1]));
        assert(s.drop_last() =~= s.subrange(0, s.len() - 1));
        lemma_trim_end_skip(s.drop_last(), i);
        assert(s.drop_last().subrange(0, i) =~= s.subrange(0, i));
    }
}

/// Removes leading and trailing spaces and tabs.
pub fn trim(s: &[u8]) -> (r: Vec<u8>)
    ensures
        r@ == trim_spec(s@),
{
    let mut i: usize = 0;
    while i < s.len() && (s[i] == 32 || s[i] == 9)
        invariant
            0 <= i <= s@.len(),
            forall|j: int| 0 <= j < i ==> is_space(s@[j]),
        decreases s@.len() - i,
    {
        i = i + 1;
    }
    let mut j: usize = s.len();
    while j > i && (s[j - 1] == 32 || s[j - 1] == 9)
        invariant
            i <= j <= s@.len(),
            forall|k: int| j <= k < s@.len() ==> is_space(s@[k]),
        decreases j,
    {
        j = j - 1;
    }
    proof {
        lemma_trim_start_skip(s@, i as int);
        let t = s@.subrange(i as int, s@.len() as int);
        assert(trim_start_spec(t) == t);
        lemma_trim_end_skip(t, j - i);
        let u = t.subrange(0, j - i);
        assert(trim_end_spec(u) == u);
        assert(u =~= s@.subrange(i as int, j as int));
    }
    vstd::slice::slice_to_vec(vstd::slice::slice_subrange(s, i, j))
}

/// True when the two byte slices hold the same bytes.
pub fn bytes_eq(a: &[u8], b: &[u8]) -> (r: bool)
    ensures
        r == (a@ == b@),
{
    if a.len() != b.len() {
        return false;
    }
    let mut i: usize = 0;
    while i < a.len()
        invariant
            a@.len() == b@.len(),
            0 <= i <= a@.len(),
            forall|j: int| 0 <= j < i ==> a@[j] == b@[j],
        decreases a@.len() - i,
    {
        if a[i] != b[i] {
            return false;
        }
        i = i + 1;
    }
    proof {
        assert(a@ =~= b@);
    }
    true
}

pub open spec fn starts_with_spec(s: Seq<u8>, p: Seq<u8>) -> bool {
    p.len() <= s.len() && s.subrange(0, p.len() as int) == p
}

/// True when `p` is a prefix of `s`.
pub fn starts_with(s: &[u8], p: &[u8]) -> (r: bool)
    ensures
        r == starts_with_spec(s@, p@),
{
    if p.len() > s.len() {
        return false;
    }
    bytes_eq(vstd::slice::slice_subrange(s, 0, p.len()), p)
}

/// The pattern `pat` occurs in `s` at position `i`.
pub open spec fn match_at(s: Seq<u8>, pat: Seq<u8>, i: int) -> bool {
    0 <= i && i + pat.len() <= s.len() && s.subrange(i, i + pat.len()) == pat
}

/// The first position at or after `i` where the non-empty pattern `pat`
/// occurs in `s`.
pub open spec fn find_from(s: Seq<u8>, pat: Seq<u8>, i: int) -> Option<int>
    decreases s.len() - i,
{
    if i < 0 || pat.len() == 0 || i + pat.len() > s.len() {
        None
    } else if match_at(s, pat, i) {
        Some(i)
    } else {
        find_from(s, pat, i + 1)
    }
}

/// The first position where `pat` occurs in `s`.
pub open spec fn find_spec(s: Seq<u8>, pat: Seq<u8>) -> Option<int> {
    find_from(s, pat, 0)
}

pub proof fn lemma_find_from_some(s: Seq<u8>, pat: Seq<u8>, i: int)
    requires
        find_from(s, pat, i) is Some,
    ensures
        i <= find_from(s, pat, i)->Some_0,
        match_at(s, pat, find_from(s, pat, i)->Some_0),
    decreases s.len() - i,
{
    if i < 0 || pat.len() == 0 || i + pat.len() > s.len() {
    } else if match_at(s, pat, i) {
    } else {
        lemma_find_from_some(s, pat, i + 1);
    }
}

/// Finds the first occurrence of `pat` in `s`.
pub fn find(s: &[u8], pat: &[u8]) -> (r: Option<usize>)
    ensures
        match r {
            Some(i) => find_spec(s@, pat@) == Some(i as int),
            None => find_spec(s@, pat@) is None,
        },
{
    if pat.len() == 0 || pat.len() > s.len() {
        return None;
    }
    let mut i: usize = 0;
    while i <= s.len() - pat.len()
        invariant
            1 <= pat@.len() <= s@.len(),
            0 <= i <= s@.len() - pat@.len() + 1,
            find_spec(s@, pat@) == find_from(s@, pat@, i as int),
        decreases s@.len() - i,
    {
        if bytes_eq(vstd::slice::slice_subrange(s, i, i + pat.len()), pat) {
            assert(match_at(s@, pat@, i as int));
            return Some(i);
        }
        proof {
            assert(!match_at(s@, pat@, i as int));
        }
        i = i + 1;
    }
    None
}

/// `s` split on every occurrence of the (non-empty) delimiter `d`, in order;
/// a sequence of one element when `d` does not occur.
pub open spec fn split_spec(s: Seq<u8>, d: Seq<u8>) -> Seq<Seq<u8>>
    decreases s.len(),
    when d.len() > 0
    via split_spec_decreases
{
    match find_spec(s, d) {
        None => seq![s],
        Some(i) => seq![s.subrange(0, i)] + split_spec(
            s.subrange(i + d.len(), s.len() as int),
            d,
        ),
    }
}

#[via_fn]
proof fn split_spec_decreases(s: Seq<u8>, d: Seq<u8>) {
    if find_spec(s, d) is Some {
        lemma_find_from_some(s, d, 0);
    }
}

/// Splits `s` on every occurrence of the non-empty delimiter `d`.
pub fn split(s: &[u8], d: &[u8]) -> (r: Vec<Vec<u8>>)
    requires
        d@.len() > 0,
    ensures
        r.deep_view() == split_spec(s@, d@),
{
    let mut parts: Vec<Vec<u8>> = Vec::new();
    let mut start: usize = 0;
    proof {
        assert(s@.subrange(0, s@.len() as int) =~= s@);
        assert(parts.deep_view() + split_spec(s@, d@) =~= split_spec(s@, d@));
    }
    loop
        invariant
            d@.len() > 0,
            0 <= start <= s@.len(),
            split_spec(s@, d@) == parts.deep_view() + split_spec(
                s@.subrange(start as int, s@.len() as int),
                d@,
            ),
        decreases s@.len() - start,
    {
        let ghost prev = parts.deep_view();
        let rest = vstd::slice::slice_subrange(s, start, s.len());
        match find(rest, d) {
            None => {
                parts.push(vstd::slice::slice_to_vec(rest));
                proof {
                    assert(split_spec(rest@, d@) =~= seq![rest@]);
                    assert(parts.deep_view() =~~= prev.push(rest@));
                    assert(parts.deep_view() =~= prev + seq![rest@]);
                    assert(parts.deep_view() =~= split_spec(s@, d@));
                }
                return parts;
            },
            Some(k) => {
                proof {
                    lemma_find_from_some(rest@, d@, 0);
                }
                parts.push(vstd::slice::slice_to_vec(vstd::slice::slice_subrange(rest, 0, k)));
                proof {
                    let piece = rest@.subrange(0, k as int);
                    assert(split_spec(rest@, d@) == seq![piece] + split_spec(
                        rest@.subrange(k + d@.len(), rest@.len() as int),
                        d@,
                    ));
                    assert(rest@.subrange(k + d@.len(), rest@.len() as int) =~= s@.subrange(
                        start + k + d@.len(),
                        s@.len() as int,
                    ));
                    assert(parts.deep_view() =~~= prev.push(piece));
                    assert(parts.deep_view() + split_spec(
                        s@.subrange(start + k + d@.len(), s@.len() as int),
                        d@,
                    ) =~= split_spec(s@, d@));
                }
                start = start + k + d.len();
            },
        }
    }
}

/// Length of the leading run of non-space bytes.
pub open spec fn token_len(s: Seq<u8>) -> int
    decreases s.len(),
{
    if s.len() == 0 || is_space(s[0]) {
        0
    } else {
        1 + token_len(s.drop_first())
    }
}

pub proof fn lemma_token_len_bounds(s: Seq<u8>)
    ensures
        0 <= token_len(s) <= s.len(),
    decreases s.len(),
{
    if !(s.len() == 0 || is_space(s[0])) {
        lemma_token_len_bounds(s.drop_first());
    }
}

proof fn lemma_token_len_run(s: Seq<u8>, k: int)
    requires
        0 <= k <= s.len(),
        forall|j: int| 0 <= j < k ==> !is_space(s[j]),
        k < s.len() ==> is_space(s[k]),
    ensures
        token_len(s) == k,
    decreases k,
{
    if k == 0 {
    } else {
        assert(!is_space(s[0]));
        lemma_token_len_run(s.drop_first(), k - 1);
    }
}

/// The maximal non-space runs of `s`, in order: the whitespace-separated
/// tokens of the request line.
pub open spec fn tokens_spec(s: Seq<u8>) -> Seq<Seq<u8>>
    decreases s.len(),
    via tokens_spec_decreases
{
    if s.len() == 0 {
        Seq::empty()
    } else if is_space(s[0]) {
        tokens_spec(s.drop_first())
    } else {
        seq![s.subrange(0, token_len(s))] + tokens_spec(s.subrange(token_len(s), s.len() as int))
    }
}

#[via_fn]
proof fn tokens_spec_decreases(s: Seq<u8>) {
    lemma_token_len_bounds(s);
    if s.len() > 0 && !is_space(s[0]) {
        lemma_token_len_bounds(s.drop_first());
        assert(token_len(s) == 1 + token_len(s.drop_first()));
    }
}

/// Splits `s` into its whitespace-separated tokens.
pub fn split_ws(s: &[u8]) -> (r: Vec<Vec<u8>>)
    ensures
        r.deep_view() == tokens_spec(s@),
{
    let mut parts: Vec<Vec<u8>> = Vec::new();
    let mut i: usize = 0;
    proof {
        assert(s@.subrange(0, s@.len() as int) =~= s@);
        assert(parts.deep_view() + tokens_spec(s@) =~= tokens_spec(s@));
    }
    while i < s.len()
        invariant
            0 <= i <= s@.len(),
            tokens_spec(s@) == parts.deep_view() + tokens_spec(
                s@.subrange(i as int, s@.len() as int),
            ),
        decreases s@.len() - i,
    {
        let ghost prev = parts.deep_view();
        if s[i] == 32 || s[i] == 9 {
            proof {
                let t = s@.subrange(i as int, s@.len() as int);
                assert(is_space(t[0]));
                assert(t.drop_first() =~= s@.subrange(i + 1, s@.len() as int));
            }
            i = i + 1;
        } else {
            let mut j: usize = i + 1;
            while j < s.len() && !(s[j] == 32 || s[j] == 9)
                invariant
                    i < j <= s@.len(),
                    forall|k: int| i <= k < j ==> !is_space(s@[k]),
                decreases s@.len() - j,
            {
                j = j + 1;
            }
            parts.push(vstd::slice::slice_to_vec(vstd::slice::slice_subrange(s, i, j)));
            proof {
                let t = s@.subrange(i as int, s@.len() as int);
                lemma_token_len_run(t, j - i);
                assert(t.subrange(0, j - i) =~= s@.subrange(i as int, j as int));
                assert(t.subrange(j - i, t.len() as int) =~= s@.subrange(
                    j as int,
                    s@.len() as int,
                ));
                assert(tokens_spec(t) == seq![s@.subrange(i as int, j as int)] + tokens_spec(
                    s@.subrange(j as int, s@.len() as int),
                ));
                assert(parts.deep_view() =~~= prev.push(s@.subrange(i as int, j as int)));
                assert(parts.deep_view() + tokens_spec(s@.subrange(j as int, s@.len() as int))
                    =~= tokens_spec(s@));
            }
            i = j;
        }
    }
    proof {
        assert(s@.subrange(i as int, s@.len() as int) =~= Seq::<u8>::empty());
        assert(tokens_spec(Seq::<u8>::empty()) =~= Seq::<Seq<u8>>::empty());
        assert(parts.deep_view() =~= tokens_spec(s@));
    }
    parts
}

/// An ASCII string's UTF-8 bytes are its characters, byte for byte.
pub proof fn lemma_ascii_bytes(s: &str)
    requires
        vstd::utf8::is_ascii_chars(s@),
    ensures
        s.spec_bytes().len() == s@.len(),
        forall|i: int| 0 <= i < s@.len() ==> s.spec_bytes()[i] == s@[i] as u8,
{
    vstd::utf8::is_ascii_chars_encode_utf8(s@);
}

/// Appends all of `s` to `out`.
pub fn push_all(out: &mut Vec<u8>, s: &[u8])
    ensures
        final (out)@ == old(out)@ + s@,
{
    let mut i: usize = 0;
    proof {
        assert(out@ =~= old(out)@ + s@.subrange(0, 0));
    }
    while i < s.len()
        invariant
            0 <= i <= s@.len(),
            out@ == old(out)@ + s@.subrange(0, i as int),
        decreases s@.len() - i,
    {
        let ghost prev = out@;
        out.push(s[i]);
        proof {
            assert(out@ =~= old(out)@ + s@.subrange(0, i + 1));
        }
        i = i + 1;
    }
    proof {
        assert(s@.subrange(0, s@.len() as int) =~= s@);
    }
}

/// True when the byte string `x` is one of the byte strings in `list`.
pub fn contains_bytes(list: &Vec<Vec<u8>>, x: &[u8]) -> (r: bool)
    ensures
        r == list.deep_view().contains(x@),
{
    let ghost lv = list.deep_view();
    let mut i: usize = 0;
    while i < list.len()
        invariant
            lv == list.deep_view(),
            0 <= i <= list@.len(),
            forall|j: int| 0 <= j < i ==> lv[j] != x@,
        decreases list@.len() - i,
    {
        proof {
            assert(lv[i as int] =~= list@[i as int]@);
        }
        if bytes_eq(list[i].as_slice(), x) {
            assert(lv.contains(x@)) by {
                assert(lv[i as int] == x@);
            }
            return true;
        }
        i = i + 1;
    }
    proof {
        if lv.contains(x@) {
            let w = choose|j: int| 0 <= j < lv.len() && lv[j] == x@;
        }
    }
    false
}

/// The decimal digits of `n` in ASCII, most significant first, no sign,
/// no leading zeros (a single `0` for zero).
pub open spec fn dec_spec(n: nat) -> Seq<u8>
    decreases n,
{
    if n < 10 {
        seq![(48 + n) as u8]
    } else {
        dec_spec(n / 10) + seq![(48 + n % 10) as u8]
    }
}

/// Renders `n` in decimal ASCII.
pub fn dec(n: usize) -> (r: Vec<u8>)
    ensures
        r@ == dec_spec(n as nat),
{
    let mut digits: Vec<u8> = Vec::new();
    let mut m: usize = n;
    loop
        invariant
            dec_spec(n as nat) =~= dec_spec(m as nat) + digits@,
        decreases m,
    {
        let d: u8 = (m % 10) as u8;
        digits.insert(0, 48 + d);
        let next: usize = m / 10;
        proof {
            if m >= 10 {
                assert(dec_spec(m as nat) =~= dec_spec((m as nat) / 10) + seq![
                    (48 + (m as nat) % 10) as u8
                ]);
            }
        }
        if next == 0 && m < 10 {
            proof {
                assert(dec_spec(m as nat) =~= seq![(48 + m as nat) as u8]);
                assert(digits@ =~= dec_spec(n as nat));
            }
            return digits;
        }
        m = next;
    }
}

}
