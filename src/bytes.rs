//! Byte-level scanning used by the frame parser and the forwarders.
use vstd::prelude::*;
use vstd::slice::{slice_subrange, slice_to_vec};

verus! {

/// `pat` occurs in `s` at offset `i`.
pub open spec fn matches_at(s: Seq<u8>, pat: Seq<u8>, i: int) -> bool {
    0 <= i && i + pat.len() <= s.len() && s.subrange(i, i + pat.len()) == pat
}

/// First offset at or after `i` where `pat` occurs in `s`.
pub open spec fn find_from(s: Seq<u8>, pat: Seq<u8>, i: int) -> Option<int>
    decreases s.len() - i,
{
    if i < 0 || i >= s.len() {
        None
    } else if matches_at(s, pat, i) {
        Some(i)
    } else {
        find_from(s, pat, i + 1)
    }
}

/// What follows the first occurrence of `sep` in `s`.
pub open spec fn after_first(s: Seq<u8>, sep: Seq<u8>) -> Option<Seq<u8>> {
    match find_from(s, sep, 0) {
        Some(i) => Some(s.subrange(i + sep.len(), s.len() as int)),
        None => None,
    }
}

/// What precedes the first occurrence of `sep` in `s`.
pub open spec fn before_first(s: Seq<u8>, sep: Seq<u8>) -> Option<Seq<u8>> {
    match find_from(s, sep, 0) {
        Some(i) => Some(s.subrange(0, i)),
        None => None,
    }
}

pub proof fn lemma_find_from_bounds(s: Seq<u8>, pat: Seq<u8>, i: int)
    ensures
        find_from(s, pat, i) matches Some(j) ==> i <= j && matches_at(s, pat, j),
    decreases s.len() - i,
{
    if 0 <= i < s.len() && !matches_at(s, pat, i) {
        lemma_find_from_bounds(s, pat, i + 1);
    }
}

/// The first occurrence of `pat` from `i` is at `j` when none starts in between.
pub proof fn lemma_find_first(s: Seq<u8>, pat: Seq<u8>, i: int, j: int)
    requires
        0 <= i <= j,
        matches_at(s, pat, j),
        pat.len() > 0,
        forall|k: int| i <= k < j ==> !matches_at(s, pat, k),
    ensures
        find_from(s, pat, i) == Some(j),
    decreases j - i,
{
    if i < j {
        lemma_find_first(s, pat, i + 1, j);
    }
}

/// `pat` cannot occur at `k` when the byte at `k + d` differs from `pat[d]`.
pub proof fn lemma_mismatch_at(s: Seq<u8>, pat: Seq<u8>, k: int, d: int)
    requires
        0 <= d < pat.len(),
        0 <= k,
        k + d < s.len(),
        s[k + d] != pat[d],
    ensures
        !matches_at(s, pat, k),
{
    if matches_at(s, pat, k) {
        assert(s.subrange(k, k + pat.len())[d] == s[k + d]);
    }
}

/// Whether `pat` occurs in `s` at offset `i`.
pub fn matches_here(s: &[u8], pat: &[u8], i: usize) -> (r: bool)
    requires
        i <= s@.len(),
    ensures
        r == matches_at(s@, pat@, i as int),
{
    if pat.len() > s.len() - i {
        return false;
    }
    let n = s.len();
    let mut j: usize = 0;
    while j < pat.len()
        invariant
            n == s@.len(),
            j <= pat@.len(),
            i + pat@.len() <= s@.len(),
            forall|k: int| 0 <= k < j ==> s@[i + k] == pat@[k],
        decreases pat@.len() - j,
    {
        if s[i + j] != pat[j] {
            assert(s@.subrange(i as int, i + pat@.len())[j as int] != pat@[j as int]);
            return false;
        }
        j = j + 1;
    }
    assert(s@.subrange(i as int, i + pat@.len()) =~= pat@);
    true
}

/// First offset at or after `start` where `pat` occurs in `s`.
pub fn find(s: &[u8], pat: &[u8], start: usize) -> (r: Option<usize>)
    requires
        start <= s@.len(),
    ensures
        r matches Some(i) ==> find_from(s@, pat@, start as int) == Some(i as int) && start <= i
            && i + pat@.len() <= s@.len(),
        r is None ==> find_from(s@, pat@, start as int) is None,
{
    let mut i = start;
    while i < s.len()
        invariant
            start <= i <= s@.len(),
            find_from(s@, pat@, start as int) == find_from(s@, pat@, i as int),
        decreases s@.len() - i,
    {
        if matches_here(s, pat, i) {
            return Some(i);
        }
        i = i + 1;
    }
    None
}

/// ASCII white space, as the request line separates its words.
pub open spec fn is_space(b: u8) -> bool {
    b == 32 || (9 <= b && b <= 13)
}

/// First offset at or after `i` that is not white space.
pub open spec fn skip_space(s: Seq<u8>, i: int) -> int
    decreases s.len() - i,
{
    if 0 <= i < s.len() && is_space(s[i]) {
        skip_space(s, i + 1)
    } else {
        i
    }
}

/// First offset at or after `i` that is white space.
pub open spec fn word_end(s: Seq<u8>, i: int) -> int
    decreases s.len() - i,
{
    if 0 <= i < s.len() && !is_space(s[i]) {
        word_end(s, i + 1)
    } else {
        i
    }
}

/// The `k`-th white-space separated word of `s`, counting from offset `i`.
pub open spec fn word_from(s: Seq<u8>, i: int, k: nat) -> Option<Seq<u8>>
    decreases k,
{
    let st = skip_space(s, i);
    if st >= s.len() {
        None
    } else {
        let en = word_end(s, st);
        if k == 0 {
            Some(s.subrange(st, en))
        } else {
            word_from(s, en, (k - 1) as nat)
        }
    }
}

/// The `k`-th white-space separated word of `s`.
pub open spec fn word(s: Seq<u8>, k: nat) -> Option<Seq<u8>> {
    word_from(s, 0, k)
}

fn skip_space_at(s: &[u8], i: usize) -> (r: usize)
    requires
        i <= s@.len(),
    ensures
        r as int == skip_space(s@, i as int),
        i <= r <= s@.len(),
{
    let mut j = i;
    while j < s.len() && (s[j] == 32 || (9 <= s[j] && s[j] <= 13))
        invariant
            i <= j <= s@.len(),
            skip_space(s@, i as int) == skip_space(s@, j as int),
        decreases s@.len() - j,
    {
        j = j + 1;
    }
    j
}

fn word_end_at(s: &[u8], i: usize) -> (r: usize)
    requires
        i <= s@.len(),
    ensures
        r as int == word_end(s@, i as int),
        i <= r <= s@.len(),
{
    let mut j = i;
    while j < s.len() && !(s[j] == 32 || (9 <= s[j] && s[j] <= 13))
        invariant
            i <= j <= s@.len(),
            word_end(s@, i as int) == word_end(s@, j as int),
        decreases s@.len() - j,
    {
        j = j + 1;
    }
    j
}

/// Bounds of the `k`-th white-space separated word of `s`.
pub fn nth_word(s: &[u8], k: usize) -> (r: Option<(usize, usize)>)
    ensures
        r matches Some((a, b)) ==> a <= b <= s@.len() && word(s@, k as nat) == Some(
            s@.subrange(a as int, b as int),
        ),
        r is None ==> word(s@, k as nat) is None,
{
    let mut pos: usize = 0;
    let mut j: usize = 0;
    loop
        invariant
            j <= k,
            pos <= s@.len(),
            word(s@, k as nat) == word_from(s@, pos as int, (k - j) as nat),
        decreases k - j,
    {
        let st = skip_space_at(s, pos);
        if st >= s.len() {
            return None;
        }
        let en = word_end_at(s, st);
        if j == k {
            return Some((st, en));
        }
        pos = en;
        j = j + 1;
    }
}

/// End of the line that starts at `start`: the next line feed, or the end of `s`.
pub open spec fn line_end(s: Seq<u8>, start: int) -> int {
    match find_from(s, seq![10u8], start) {
        Some(e) => e,
        None => s.len() as int,
    }
}

/// Start of the `k`-th line counted from the line that starts at `start`.
pub open spec fn line_start_from(s: Seq<u8>, start: int, k: nat) -> Option<int>
    decreases k,
{
    if start < 0 || start >= s.len() {
        None
    } else if k == 0 {
        Some(start)
    } else {
        let e = line_end(s, start);
        if e >= s.len() {
            None
        } else {
            line_start_from(s, e + 1, (k - 1) as nat)
        }
    }
}

/// A line without its terminating carriage return.
pub open spec fn strip_cr(l: Seq<u8>) -> Seq<u8> {
    if l.len() > 0 && l.last() == 13u8 {
        l.drop_last()
    } else {
        l
    }
}

/// The `k`-th line of `s`, split at line feeds, without a trailing carriage return.
pub open spec fn line(s: Seq<u8>, k: nat) -> Option<Seq<u8>> {
    match line_start_from(s, 0, k) {
        Some(st) => Some(strip_cr(s.subrange(st, line_end(s, st)))),
        None => None,
    }
}

/// Bounds of the `k`-th line of `s`.
pub fn nth_line(s: &[u8], k: usize) -> (r: Option<(usize, usize)>)
    ensures
        r matches Some((a, b)) ==> a <= b <= s@.len() && line(s@, k as nat) == Some(
            s@.subrange(a as int, b as int),
        ),
        r is None ==> line(s@, k as nat) is None,
{
    let nl: [u8; 1] = [10u8];
    let nl = nl.as_slice();
    assert(nl@ =~= seq![10u8]);
    let mut pos: usize = 0;
    let mut j: usize = 0;
    loop
        invariant
            j <= k,
            pos <= s@.len(),
            nl@ == seq![10u8],
            line_start_from(s@, 0, k as nat) == line_start_from(s@, pos as int, (k - j) as nat),
        decreases k - j,
    {
        if pos >= s.len() {
            return None;
        }
        let e = match find(s, nl, pos) {
            Some(e) => e,
            None => s.len(),
        };
        if j == k {
            let mut b = e;
            if b > pos && s[b - 1] == 13 {
                b = b - 1;
                assert(s@.subrange(pos as int, e as int).drop_last() =~= s@.subrange(
                    pos as int,
                    b as int,
                ));
            }
            return Some((pos, b));
        }
        if e >= s.len() {
            return None;
        }
        pos = e + 1;
        j = j + 1;
    }
}

/// No white space in `s[i..j]`, and white space or the end at `j`: the word ends at `j`.
pub proof fn lemma_word_end(s: Seq<u8>, i: int, j: int)
    requires
        0 <= i <= j <= s.len(),
        forall|k: int| i <= k < j ==> !is_space(#[trigger] s[k]),
        j == s.len() || is_space(s[j]),
    ensures
        word_end(s, i) == j,
    decreases j - i,
{
    if i < j {
        lemma_word_end(s, i + 1, j);
    }
}

/// Only white space in `s[i..j]`, and none at `j`: skipping ends at `j`.
pub proof fn lemma_skip_space(s: Seq<u8>, i: int, j: int)
    requires
        0 <= i <= j < s.len(),
        forall|k: int| i <= k < j ==> is_space(#[trigger] s[k]),
        !is_space(s[j]),
    ensures
        skip_space(s, i) == j,
    decreases j - i,
{
    if i < j {
        lemma_skip_space(s, i + 1, j);
    }
}

proof fn lemma_skip_space_stops(s: Seq<u8>, i: int)
    requires
        0 <= i,
    ensures
        i <= skip_space(s, i),
        skip_space(s, i) < s.len() ==> !is_space(s[skip_space(s, i)]),
    decreases s.len() - i,
{
    if 0 <= i < s.len() && is_space(s[i]) {
        lemma_skip_space_stops(s, i + 1);
    }
}

proof fn lemma_word_end_spans(s: Seq<u8>, i: int)
    requires
        0 <= i,
    ensures
        i <= word_end(s, i),
        word_end(s, i) <= s.len() || word_end(s, i) == i,
        forall|k: int| i <= k < word_end(s, i) ==> !is_space(#[trigger] s[k]),
        i < s.len() && !is_space(s[i]) ==> i < word_end(s, i),
    decreases s.len() - i,
{
    if 0 <= i < s.len() && !is_space(s[i]) {
        lemma_word_end_spans(s, i + 1);
    }
}

/// A word of a line is non-empty and holds no white space.
pub proof fn lemma_word_has_no_space(s: Seq<u8>, i: int, k: nat)
    requires
        0 <= i,
    ensures
        word_from(s, i, k) matches Some(w) ==> w.len() > 0 && forall|j: int|
            0 <= j < w.len() ==> !is_space(#[trigger] w[j]),
    decreases k,
{
    let st = skip_space(s, i);
    lemma_skip_space_stops(s, i);
    if st < s.len() {
        lemma_word_end_spans(s, st);
        let en = word_end(s, st);
        if k == 0 {
            let w = s.subrange(st, en);
            assert forall|j: int| 0 <= j < w.len() implies !is_space(#[trigger] w[j]) by {
                assert(w[j] == s[st + j]);
            }
        } else {
            lemma_word_has_no_space(s, en, (k - 1) as nat);
        }
    }
}

/// `s` without its trailing NUL bytes.
pub open spec fn strip_trailing_nul(s: Seq<u8>) -> Seq<u8>
    decreases s.len(),
{
    if s.len() > 0 && s.last() == 0u8 {
        strip_trailing_nul(s.drop_last())
    } else {
        s
    }
}

/// `s` without its trailing white space.
pub open spec fn trim_end_space(s: Seq<u8>) -> Seq<u8>
    decreases s.len(),
{
    if s.len() > 0 && is_space(s.last()) {
        trim_end_space(s.drop_last())
    } else {
        s
    }
}

/// `s` without its leading white space.
pub open spec fn trim_start_space(s: Seq<u8>) -> Seq<u8>
    decreases s.len(),
{
    if s.len() > 0 && is_space(s[0]) {
        trim_start_space(s.drop_first())
    } else {
        s
    }
}

/// `s` without white space at either end.
pub open spec fn trim_space(s: Seq<u8>) -> Seq<u8> {
    trim_end_space(trim_start_space(s))
}

/// Copy of `s` without its trailing NUL bytes.
pub fn without_trailing_nul(s: &[u8]) -> (r: Vec<u8>)
    ensures
        r@ == strip_trailing_nul(s@),
{
    let mut e = s.len();
    assert(s@.subrange(0, e as int) =~= s@);
    while e > 0 && s[e - 1] == 0
        invariant
            e <= s@.len(),
            strip_trailing_nul(s@) == strip_trailing_nul(s@.subrange(0, e as int)),
        decreases e,
    {
        assert(s@.subrange(0, e as int).drop_last() =~= s@.subrange(0, e - 1));
        e = e - 1;
    }
    slice_to_vec(slice_subrange(s, 0, e))
}

/// Copy of `s` without white space at either end.
pub fn trimmed(s: &[u8]) -> (r: Vec<u8>)
    ensures
        r@ == trim_space(s@),
{
    let mut b: usize = 0;
    assert(s@.subrange(0, s@.len() as int) =~= s@);
    while b < s.len() && (s[b] == 32 || (9 <= s[b] && s[b] <= 13))
        invariant
            b <= s@.len(),
            trim_start_space(s@) == trim_start_space(s@.subrange(b as int, s@.len() as int)),
        decreases s@.len() - b,
    {
        assert(s@.subrange(b as int, s@.len() as int).drop_first() =~= s@.subrange(
            b + 1,
            s@.len() as int,
        ));
        b = b + 1;
    }
    let mut e = s.len();
    while e > b && (s[e - 1] == 32 || (9 <= s[e - 1] && s[e - 1] <= 13))
        invariant
            b <= e <= s@.len(),
            trim_start_space(s@) == trim_start_space(s@.subrange(b as int, s@.len() as int)),
            trim_space(s@) == trim_end_space(s@.subrange(b as int, e as int)),
        decreases e,
    {
        assert(s@.subrange(b as int, e as int).drop_last() =~= s@.subrange(b as int, e - 1));
        e = e - 1;
    }
    slice_to_vec(slice_subrange(s, b, e))
}

/// Decimal digits of `n`, most significant first.
pub open spec fn decimal(n: nat) -> Seq<u8>
    decreases n,
{
    if n < 10 {
        seq![(48 + n) as u8]
    } else {
        decimal(n / 10).push((48 + n % 10) as u8)
    }
}

/// Appends the decimal digits of `n` to `out`.
pub fn push_decimal(out: &mut Vec<u8>, n: usize)
    ensures
        final(out)@ == old(out)@ + decimal(n as nat),
    decreases n,
{
    let ghost start = out@;
    if n >= 10 {
        push_decimal(out, n / 10);
    }
    let d = (n % 10) as u8;
    out.push(48 + d);
    proof {
        if n >= 10 {
            assert(out@ =~= start + decimal((n / 10) as nat).push((48 + n % 10) as u8));
        } else {
            assert(out@ =~= start + seq![(48 + n) as u8]);
        }
    }
}

/// Appends the bytes of `s` to `out`.
pub fn push_all(out: &mut Vec<u8>, s: &[u8])
    ensures
        final(out)@ == old(out)@ + s@,
{
    let ghost start = out@;
    let mut i: usize = 0;
    while i < s.len()
        invariant
            i <= s@.len(),
            out@ == start + s@.subrange(0, i as int),
        decreases s@.len() - i,
    {
        out.push(s[i]);
        assert(start + s@.subrange(0, i + 1) =~= (start + s@.subrange(0, i as int)).push(s@[i as int]));
        i = i + 1;
    }
    assert(s@.subrange(0, s@.len() as int) =~= s@);
}

/// Byte-wise equality.
pub fn same_bytes(a: &[u8], b: &[u8]) -> (r: bool)
    ensures
        r == (a@ == b@),
{
    if a.len() != b.len() {
        return false;
    }
    let r = matches_here(a, b, 0);
    assert(a@.subrange(0, b@.len() as int) =~= a@);
    r
}

/// Copy of what follows the first occurrence of `sep` in `s`.
pub fn split_after(s: &[u8], sep: &[u8]) -> (r: Option<Vec<u8>>)
    ensures
        opt_seq(r) == after_first(s@, sep@),
{
    let n = s.len();
    match find(s, sep, 0) {
        Some(i) => Some(slice_to_vec(slice_subrange(s, i + sep.len(), n))),
        None => None,
    }
}

/// Copy of what precedes the first occurrence of `sep` in `s`.
pub fn split_before(s: &[u8], sep: &[u8]) -> (r: Option<Vec<u8>>)
    ensures
        opt_seq(r) == before_first(s@, sep@),
{
    match find(s, sep, 0) {
        Some(i) => Some(slice_to_vec(slice_subrange(s, 0, i))),
        None => None,
    }
}

/// The view of an optional byte vector.
pub open spec fn opt_seq(o: Option<Vec<u8>>) -> Option<Seq<u8>> {
    match o {
        Some(v) => Some(v@),
        None => None,
    }
}

} // verus!
