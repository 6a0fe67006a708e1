//! Character-level helpers shared by the command builders: conversions
//! between strings and character vectors, and decimal / hexadecimal
//! rendering of integers.

use vstd::prelude::*;
use vstd::string::*;

verus! {

/// The view of a sequence of owned strings as a sequence of character sequences.
pub open spec fn string_views(v: Seq<String>) -> Seq<Seq<char>> {
    v.map_values(|s: String| s@)
}

/// Appends one character to a string (std `String::push`).
#[verifier::external_body]
pub(crate) fn push_char(s: &mut String, c: char)
    ensures
        final(s)@ == old(s)@.push(c),
{
    s.push(c);
}

/// The characters of a string slice, in order.
pub fn chars_of(s: &str) -> (v: Vec<char>)
    ensures
        v@ == s@,
{
    let n = s.unicode_len();
    let mut v: Vec<char> = Vec::new();
    let mut i: usize = 0;
    while i < n
        invariant
            n == s@.len(),
            i <= n,
            v@ == s@.take(i as int),
        decreases n - i,
    {
        let c = s.get_char(i);
        v.push(c);
        i = i + 1;
        assert(v@ =~= s@.take(i as int));
    }
    assert(v@ =~= s@);
    v
}

/// Builds an owned string from a sequence of characters.
pub fn string_from_chars(v: &[char]) -> (s: String)
    ensures
        s@ == v@,
{
    let mut s = String::new();
    let mut i: usize = 0;
    while i < v.len()
        invariant
            i <= v@.len(),
            s@ == v@.take(i as int),
        decreases v@.len() - i,
    {
        push_char(&mut s, v[i]);
        i = i + 1;
        assert(s@ =~= v@.take(i as int));
    }
    assert(v@.take(v@.len() as int) =~= v@);
    s
}

/// Appends all characters of `t` to `v`.
pub fn extend_chars(v: &mut Vec<char>, t: &str)
    ensures
        final(v)@ == old(v)@ + t@,
{
    let tc = chars_of(t);
    let mut i: usize = 0;
    while i < tc.len()
        invariant
            i <= tc@.len(),
            tc@ == t@,
            v@ == old(v)@ + tc@.take(i as int),
        decreases tc@.len() - i,
    {
        v.push(tc[i]);
        i = i + 1;
        assert(v@ =~= old(v)@ + tc@.take(i as int));
    }
    assert(tc@.take(tc@.len() as int) =~= tc@);
}

/// The decimal digit character for `d` (0 to 9).
pub open spec fn dec_digit(d: nat) -> char {
    if d == 0 { '0' }
    else if d == 1 { '1' }
    else if d == 2 { '2' }
    else if d == 3 { '3' }
    else if d == 4 { '4' }
    else if d == 5 { '5' }
    else if d == 6 { '6' }
    else if d == 7 { '7' }
    else if d == 8 { '8' }
    else { '9' }
}

/// The lowercase hexadecimal digit character for `d` (0 to 15).
pub open spec fn hex_digit(d: nat) -> char {
    if d < 10 { dec_digit(d) }
    else if d == 10 { 'a' }
    else if d == 11 { 'b' }
    else if d == 12 { 'c' }
    else if d == 13 { 'd' }
    else if d == 14 { 'e' }
    else { 'f' }
}

/// The decimal rendering of `n`, without sign or leading zeros (as `Display` prints it).
pub open spec fn decimal(n: nat) -> Seq<char>
    decreases n,
{
    if n < 10 {
        seq![dec_digit(n)]
    } else {
        decimal(n / 10).push(dec_digit(n % 10))
    }
}

/// The `width` low hexadecimal digits of `n`, most significant first, zero padded.
pub open spec fn hex_fixed(n: nat, width: nat) -> Seq<char>
    decreases width,
{
    if width == 0 {
        Seq::empty()
    } else {
        hex_fixed(n / 16, (width - 1) as nat).push(hex_digit(n % 16))
    }
}

fn hex_digit_char(d: u64) -> (c: char)
    requires
        d < 16,
    ensures
        c == hex_digit(d as nat),
{
    if d == 0 { '0' }
    else if d == 1 { '1' }
    else if d == 2 { '2' }
    else if d == 3 { '3' }
    else if d == 4 { '4' }
    else if d == 5 { '5' }
    else if d == 6 { '6' }
    else if d == 7 { '7' }
    else if d == 8 { '8' }
    else if d == 9 { '9' }
    else if d == 10 { 'a' }
    else if d == 11 { 'b' }
    else if d == 12 { 'c' }
    else if d == 13 { 'd' }
    else if d == 14 { 'e' }
    else { 'f' }
}

/// Appends the decimal rendering of `n` to `out`.
pub fn push_decimal(out: &mut Vec<char>, n: u64)
    ensures
        final(out)@ == old(out)@ + decimal(n as nat),
    decreases n,
{
    if n < 10 {
        out.push(hex_digit_char(n));
    } else {
        push_decimal(out, n / 10);
        out.push(hex_digit_char(n % 10));
        assert(decimal(n as nat) == decimal((n / 10) as nat).push(dec_digit((n % 10) as nat)));
        assert(final(out)@ =~= old(out)@ + decimal(n as nat));
    }
}

/// Appends the `width` low hexadecimal digits of `n`, zero padded.
pub fn push_hex_fixed(out: &mut Vec<char>, n: u64, width: u64)
    ensures
        final(out)@ == old(out)@ + hex_fixed(n as nat, width as nat),
    decreases width,
{
    if width > 0 {
        push_hex_fixed(out, n / 16, width - 1);
        out.push(hex_digit_char(n % 16));
        assert(final(out)@ =~= old(out)@ + hex_fixed(n as nat, width as nat));
    }
}

/// The decimal rendering of `n` as an owned string.
pub fn decimal_string(n: u64) -> (s: String)
    ensures
        s@ == decimal(n as nat),
{
    let mut v: Vec<char> = Vec::new();
    push_decimal(&mut v, n);
    assert(v@ =~= decimal(n as nat));
    string_from_chars(&v)
}


/// Whether two string slices hold the same characters.
pub fn str_eq(a: &str, b: &str) -> (r: bool)
    ensures
        r == (a@ == b@),
{
    let n = a.unicode_len();
    let m = b.unicode_len();
    if n != m {
        return false;
    }
    let mut i: usize = 0;
    while i < n
        invariant
            n == a@.len(),
            m == b@.len(),
            n == m,
            i <= n,
            forall|j: int| 0 <= j < i ==> a@[j] == b@[j],
        decreases n - i,
    {
        if a.get_char(i) != b.get_char(i) {
            return false;
        }
        i = i + 1;
    }
    assert(a@ =~= b@);
    true
}

/// The index of the first occurrence of `c` in `s`, or `s.len()` when `c` does not occur.
pub open spec fn first_index_of(s: Seq<char>, c: char) -> int
    decreases s.len(),
{
    if s.len() == 0 {
        0
    } else if s[0] == c {
        0
    } else {
        1 + first_index_of(s.drop_first(), c)
    }
}

/// `k` is the first position of `c` in `s` (or the length when `c` is absent).
pub open spec fn is_first_index_of(s: Seq<char>, c: char, k: int) -> bool {
    &&& 0 <= k <= s.len()
    &&& forall|j: int| 0 <= j < k ==> s[j] != c
    &&& k < s.len() ==> s[k] == c
}

/// The position characterised by `is_first_index_of` is unique and is `first_index_of`.
pub proof fn lemma_first_index_of(s: Seq<char>, c: char, k: int)
    requires
        is_first_index_of(s, c, k),
    ensures
        first_index_of(s, c) == k,
    decreases s.len(),
{
    if s.len() > 0 && s[0] != c {
        assert(k > 0);
        let t = s.drop_first();
        assert forall|j: int| 0 <= j < k - 1 implies t[j] != c by {
            assert(t[j] == s[j + 1]);
        }
        if k - 1 < t.len() {
            assert(t[k - 1] == s[k]);
        }
        lemma_first_index_of(t, c, k - 1);
    }
}

/// `first_index_of` is the first position of `c`, or the length when `c` is absent.
pub proof fn lemma_first_index_of_bounds(s: Seq<char>, c: char)
    ensures
        is_first_index_of(s, c, first_index_of(s, c)),
    decreases s.len(),
{
    if s.len() > 0 && s[0] != c {
        let t = s.drop_first();
        lemma_first_index_of_bounds(t, c);
        assert forall|j: int| 0 <= j < first_index_of(s, c) implies s[j] != c by {
            if j > 0 {
                assert(s[j] == t[j - 1]);
            }
        }
    }
}

/// The part before the first `c` has no `c`.
pub proof fn lemma_first_index_of_prefix(s: Seq<char>, c: char, k: int)
    requires
        k == first_index_of(s, c),
    ensures
        first_index_of(s.take(k), c) == k,
        s.take(k).len() == k,
{
    lemma_first_index_of_bounds(s, c);
    lemma_first_index_of(s.take(k), c, k);
}

/// Position of the first `c` in `chars`, or its length when absent.
pub fn find_char(chars: &[char], c: char) -> (k: usize)
    ensures
        k as int == first_index_of(chars@, c),
        is_first_index_of(chars@, c, k as int),
{
    let mut i: usize = 0;
    while i < chars.len()
        invariant
            i <= chars@.len(),
            forall|j: int| 0 <= j < i ==> chars@[j] != c,
        decreases chars@.len() - i,
    {
        if chars[i] == c {
            proof { lemma_first_index_of(chars@, c, i as int); }
            return i;
        }
        i = i + 1;
    }
    proof { lemma_first_index_of(chars@, c, i as int); }
    i
}

/// Concatenates two string slices into a new string.
pub fn concat2(a: &str, b: &str) -> (s: String)
    ensures
        s@ == a@ + b@,
{
    let mut s = a.to_owned();
    s.append(b);
    s
}

/// Concatenates three string slices into a new string.
pub fn concat3(a: &str, b: &str, c: &str) -> (s: String)
    ensures
        s@ == a@ + b@ + c@,
{
    let mut s = a.to_owned();
    s.append(b);
    s.append(c);
    s
}


/// Unicode `White_Space`, as std `char::is_whitespace` decides it.
pub open spec fn is_ws(c: char) -> bool {
    let u = c as u32;
    (0x09 <= u <= 0x0d) || u == 0x20 || u == 0x85 || u == 0xa0 || u == 0x1680
        || (0x2000 <= u <= 0x200a) || u == 0x2028 || u == 0x2029 || u == 0x202f
        || u == 0x205f || u == 0x3000
}

/// Whether `c` is Unicode whitespace (std `char::is_whitespace`).
pub fn char_is_ws(c: char) -> (b: bool)
    ensures
        b == is_ws(c),
{
    let u = c as u32;
    (0x09 <= u && u <= 0x0d) || u == 0x20 || u == 0x85 || u == 0xa0 || u == 0x1680
        || (0x2000 <= u && u <= 0x200a) || u == 0x2028 || u == 0x2029 || u == 0x202f
        || u == 0x205f || u == 0x3000
}

/// The characters stripped by a trim: Unicode whitespace, or `-` when `dash` holds.
pub open spec fn trim_pred(dash: bool) -> spec_fn(char) -> bool {
    |c: char| if dash { c == '-' } else { is_ws(c) }
}

/// `s` without its leading characters satisfying `p`.
pub open spec fn trim_start_by(s: Seq<char>, p: spec_fn(char) -> bool) -> Seq<char>
    decreases s.len(),
{
    if s.len() > 0 && p(s[0]) {
        trim_start_by(s.drop_first(), p)
    } else {
        s
    }
}

/// `s` without its trailing characters satisfying `p`.
pub open spec fn trim_end_by(s: Seq<char>, p: spec_fn(char) -> bool) -> Seq<char>
    decreases s.len(),
{
    if s.len() > 0 && p(s.last()) {
        trim_end_by(s.drop_last(), p)
    } else {
        s
    }
}

/// `s` without leading and trailing characters satisfying `p`.
pub open spec fn trim_by(s: Seq<char>, p: spec_fn(char) -> bool) -> Seq<char> {
    trim_end_by(trim_start_by(s, p), p)
}

/// std `str::trim`: strip Unicode whitespace at both ends.
pub open spec fn trim_ws(s: Seq<char>) -> Seq<char> {
    trim_by(s, trim_pred(false))
}

/// std `str::trim_matches('-')`.
pub open spec fn trim_dashes(s: Seq<char>) -> Seq<char> {
    trim_by(s, trim_pred(true))
}

proof fn lemma_trim_start(s: Seq<char>, p: spec_fn(char) -> bool, lo: int)
    requires
        0 <= lo <= s.len(),
        forall|j: int| 0 <= j < lo ==> p(#[trigger] s[j]),
        lo < s.len() ==> !p(s[lo]),
    ensures
        trim_start_by(s, p) == s.skip(lo),
    decreases s.len(),
{
    if lo == 0 {
        assert(s.skip(0) =~= s);
    } else {
        let t = s.drop_first();
        assert forall|j: int| 0 <= j < lo - 1 implies p(#[trigger] t[j]) by {
            assert(t[j] == s[j + 1]);
        }
        if lo - 1 < t.len() {
            assert(t[lo - 1] == s[lo]);
        }
        lemma_trim_start(t, p, lo - 1);
        assert(t.skip(lo - 1) =~= s.skip(lo));
    }
}

proof fn lemma_trim_end(s: Seq<char>, p: spec_fn(char) -> bool, hi: int)
    requires
        0 <= hi <= s.len(),
        forall|j: int| hi <= j < s.len() ==> p(#[trigger] s[j]),
        hi > 0 ==> !p(s[hi - 1]),
    ensures
        trim_end_by(s, p) == s.take(hi),
    decreases s.len(),
{
    if hi == s.len() {
        assert(s.take(hi) =~= s);
    } else {
        let t = s.drop_last();
        assert forall|j: int| hi <= j < t.len() implies p(#[trigger] t[j]) by {
            assert(t[j] == s[j]);
        }
        if hi > 0 {
            assert(t[hi - 1] == s[hi - 1]);
        }
        lemma_trim_end(t, p, hi);
        assert(t.take(hi) =~= s.take(hi));
    }
}

fn is_trim_char(c: char, dash: bool) -> (b: bool)
    ensures
        b == trim_pred(dash)(c),
{
    if dash { c == '-' } else { char_is_ws(c) }
}

/// Bounds `(lo, hi)` such that `v[lo..hi]` is `v` trimmed (of whitespace, or of dashes).
pub fn trim_bounds(v: &[char], dash: bool) -> (r: (usize, usize))
    ensures
        r.0 <= r.1 <= v@.len(),
        v@.subrange(r.0 as int, r.1 as int) == trim_by(v@, trim_pred(dash)),
{
    let ghost p = trim_pred(dash);
    let n = v.len();
    let mut lo: usize = 0;
    while lo < n && is_trim_char(v[lo], dash)
        invariant
            lo <= n,
            n == v@.len(),
            p == trim_pred(dash),
            forall|j: int| 0 <= j < lo ==> p(#[trigger] v@[j]),
        decreases n - lo,
    {
        lo = lo + 1;
    }
    proof { lemma_trim_start(v@, p, lo as int); }
    let ghost t = v@.skip(lo as int);
    let mut hi: usize = n;
    while hi > lo && is_trim_char(v[hi - 1], dash)
        invariant
            lo <= hi <= n,
            n == v@.len(),
            p == trim_pred(dash),
            t == v@.skip(lo as int),
            forall|j: int| hi <= j < n ==> p(#[trigger] v@[j]),
        decreases hi - lo,
    {
        hi = hi - 1;
    }
    proof {
        assert forall|j: int| hi - lo <= j < t.len() implies p(#[trigger] t[j]) by {
            assert(t[j] == v@[j + lo]);
        }
        if hi > lo {
            assert(t[hi - lo - 1] == v@[hi - 1]);
        }
        lemma_trim_end(t, p, hi - lo);
        assert(t.take(hi - lo) =~= v@.subrange(lo as int, hi as int));
    }
    (lo, hi)
}

/// The index of the first character of `s` satisfying `p`, or `s.len()` when none does.
pub open spec fn first_index_where(s: Seq<char>, p: spec_fn(char) -> bool) -> int
    decreases s.len(),
{
    if s.len() == 0 {
        0
    } else if p(s[0]) {
        0
    } else {
        1 + first_index_where(s.drop_first(), p)
    }
}

/// The first `k` with `p(s[k])` (or the length) is `first_index_where`.
pub proof fn lemma_first_index_where(s: Seq<char>, p: spec_fn(char) -> bool, k: int)
    requires
        0 <= k <= s.len(),
        forall|j: int| 0 <= j < k ==> !p(#[trigger] s[j]),
        k < s.len() ==> p(s[k]),
    ensures
        first_index_where(s, p) == k,
    decreases s.len(),
{
    if s.len() > 0 && !p(s[0]) {
        let t = s.drop_first();
        assert forall|j: int| 0 <= j < k - 1 implies !p(#[trigger] t[j]) by {
            assert(t[j] == s[j + 1]);
        }
        if k - 1 < t.len() {
            assert(t[k - 1] == s[k]);
        }
        lemma_first_index_where(t, p, k - 1);
    }
}

/// The whitespace predicate as a spec closure.
pub open spec fn ws_pred() -> spec_fn(char) -> bool {
    |c: char| is_ws(c)
}

/// The whitespace-separated words of `s` (std `str::split_whitespace`).
pub open spec fn words(s: Seq<char>) -> Seq<Seq<char>>
    decreases s.len(),
{
    if s.len() == 0 {
        Seq::empty()
    } else if is_ws(s[0]) {
        words(s.drop_first())
    } else {
        let k = first_index_where(s, ws_pred());
        if 0 < k <= s.len() {
            seq![s.take(k)] + words(s.skip(k))
        } else {
            Seq::empty()
        }
    }
}

/// Words joined by single spaces.
pub open spec fn join_spaces(ws: Seq<Seq<char>>) -> Seq<char>
    decreases ws.len(),
{
    if ws.len() == 0 {
        Seq::empty()
    } else if ws.len() == 1 {
        ws[0]
    } else {
        join_spaces(ws.drop_last()) + " "@ + ws.last()
    }
}

/// The words of `v`, each as a character vector.
pub fn split_words(v: &[char]) -> (ws: Vec<Vec<char>>)
    ensures
        ws@.len() == words(v@).len(),
        forall|i: int| 0 <= i < ws@.len() ==> (#[trigger] ws@[i])@ == words(v@)[i],
{
    let n = v.len();
    let mut ws: Vec<Vec<char>> = Vec::new();
    let ghost mut acc: Seq<Seq<char>> = Seq::empty();
    let mut i: usize = 0;
    assert(v@.skip(0) =~= v@);
    while i < n
        invariant
            i <= n,
            n == v@.len(),
            ws@.len() == acc.len(),
            forall|j: int| 0 <= j < ws@.len() ==> (#[trigger] ws@[j])@ == acc[j],
            acc + words(v@.skip(i as int)) == words(v@),
        decreases n - i,
    {
        if char_is_ws(v[i]) {
            assert(v@.skip(i as int).drop_first() =~= v@.skip(i + 1));
            i = i + 1;
        } else {
            let mut j: usize = i;
            let mut w: Vec<char> = Vec::new();
            while j < n && !char_is_ws(v[j])
                invariant
                    i <= j <= n,
                    n == v@.len(),
                    w@ == v@.subrange(i as int, j as int),
                    forall|k: int| i <= k < j ==> !is_ws(#[trigger] v@[k]),
                decreases n - j,
            {
                w.push(v[j]);
                j = j + 1;
                assert(w@ =~= v@.subrange(i as int, j as int));
            }
            proof {
                let s = v@.skip(i as int);
                assert forall|k: int| 0 <= k < j - i implies !ws_pred()(#[trigger] s[k]) by {
                    assert(s[k] == v@[k + i]);
                }
                if j - i < s.len() {
                    assert(s[j - i] == v@[j as int]);
                }
                lemma_first_index_where(s, ws_pred(), j - i);
                assert(s.take(j - i) =~= v@.subrange(i as int, j as int));
                assert(s.skip(j - i) =~= v@.skip(j as int));
                assert(words(s) == seq![s.take(j - i)] + words(s.skip(j - i)));
                acc = acc.push(w@);
                assert(acc + words(v@.skip(j as int)) =~= words(v@));
            }
            ws.push(w);
            i = j;
        }
    }
    proof {
        assert(v@.skip(n as int) =~= Seq::<char>::empty());
        assert(acc =~= words(v@));
    }
    ws
}

/// The words joined by single spaces.
pub fn join_words(ws: &[Vec<char>], from: usize) -> (r: Vec<char>)
    requires
        from <= ws@.len(),
    ensures
        r@ == join_spaces(ws@.map_values(|w: Vec<char>| w@).skip(from as int)),
{
    let ghost all = ws@.map_values(|w: Vec<char>| w@).skip(from as int);
    let mut r: Vec<char> = Vec::new();
    let mut i: usize = from;
    while i < ws.len()
        invariant
            from <= i <= ws@.len(),
            all == ws@.map_values(|w: Vec<char>| w@).skip(from as int),
            r@ == join_spaces(all.take(i - from)),
        decreases ws@.len() - i,
    {
        let ghost prev = all.take(i - from);
        if i > from {
            r.push(' ');
        }
        let w = &ws[i];
        let mut k: usize = 0;
        let ghost before = r@;
        while k < w.len()
            invariant
                k <= w@.len(),
                r@ == before + w@.take(k as int),
            decreases w@.len() - k,
        {
            r.push(w[k]);
            k = k + 1;
            assert(r@ =~= before + w@.take(k as int));
        }
        proof {
            let next = all.take(i + 1 - from);
            assert(next.drop_last() =~= prev);
            assert(next.last() == ws@[i as int]@);
            assert(w@.take(w@.len() as int) =~= w@);
            if i > from {
                assert(r@ =~= join_spaces(prev) + " "@ + w@) by { reveal_strlit(" "); }
            } else {
                assert(prev.len() == 0);
                assert(r@ =~= w@);
            }
        }
        i = i + 1;
    }
    assert(all.take(ws@.len() - from) =~= all);
    r
}

/// Whether `names` contains `s`.
pub fn names_contain(names: &[String], s: &str) -> (b: bool)
    ensures
        b == string_views(names@).contains(s@),
{
    let mut i: usize = 0;
    while i < names.len()
        invariant
            i <= names@.len(),
            forall|j: int| 0 <= j < i ==> names@[j]@ != s@,
        decreases names@.len() - i,
    {
        if str_eq(names[i].as_str(), s) {
            assert(string_views(names@)[i as int] == s@);
            return true;
        }
        i = i + 1;
    }
    proof {
        if string_views(names@).contains(s@) {
            let j = choose|j: int| 0 <= j < string_views(names@).len() && string_views(names@)[j] == s@;
            assert(names@[j]@ == s@);
        }
    }
    false
}

/// `t` occurs in `s`.
pub open spec fn contains_seq(s: Seq<char>, t: Seq<char>) -> bool {
    exists|i: int| 0 <= i && i + t.len() <= s.len() && #[trigger] s.subrange(i, i + t.len()) == t
}

/// Whether `t` occurs in `s`.
pub fn contains_chars(s: &[char], t: &str) -> (b: bool)
    ensures
        b == contains_seq(s@, t@),
{
    let tc = chars_of(t);
    let n = s.len();
    let m = tc.len();
    if m > n {
        proof {
            if contains_seq(s@, t@) {
                let q = choose|q: int| 0 <= q && q + t@.len() <= s@.len() && #[trigger] s@.subrange(q, q + t@.len()) == t@;
            }
        }
        return false;
    }
    let mut i: usize = 0;
    while i <= n - m
        invariant
            m <= n,
            n == s@.len(),
            m == t@.len(),
            tc@ == t@,
            i <= n - m + 1,
            forall|q: int| 0 <= q < i ==> #[trigger] s@.subrange(q, q + m) != t@,
        decreases n - m + 1 - i,
    {
        let mut j: usize = 0;
        while j < m && s[i + j] == tc[j]
            invariant
                j <= m,
                i + m <= n,
                m == tc@.len(),
                n == s@.len(),
                forall|k: int| 0 <= k < j ==> s@[i + k] == tc@[k],
            decreases m - j,
        {
            j = j + 1;
        }
        if j == m {
            assert(s@.subrange(i as int, i + m) =~= t@);
            return true;
        }
        assert(s@.subrange(i as int, i + m)[j as int] != t@[j as int]);
        i = i + 1;
    }
    proof {
        if contains_seq(s@, t@) {
            let q = choose|q: int| 0 <= q && q + t@.len() <= s@.len() && #[trigger] s@.subrange(q, q + t@.len()) == t@;
            assert(s@.subrange(q, q + m) != t@);
        }
    }
    false
}

/// The string without leading and trailing whitespace (std `str::trim`).
pub fn trimmed(s: &str) -> (t: String)
    ensures
        t@ == trim_ws(s@),
{
    let chars = chars_of(s);
    let (lo, hi) = trim_bounds(chars.as_slice(), false);
    let mut v: Vec<char> = Vec::new();
    let mut k: usize = lo;
    while k < hi
        invariant
            lo <= k <= hi,
            hi <= chars@.len(),
            v@ == chars@.subrange(lo as int, k as int),
        decreases hi - k,
    {
        v.push(chars[k]);
        k = k + 1;
        assert(v@ =~= chars@.subrange(lo as int, k as int));
    }
    string_from_chars(v.as_slice())
}

} // verus!
