//! Character-level text operations: searching, trimming and UTF-8 sizing
//! over sequences of `char`, the shape in which the rest of the library
//! reads and builds strings.
use vstd::prelude::*;

verus! {

// ── Specifications ────────────────────────────────────────────────────────

/// The Unicode `White_Space` property, which is what `char::is_whitespace`
/// (and hence `str::trim`) tests.
pub open spec fn is_ws(c: char) -> bool {
    let u = c as u32;
    ||| 0x09 <= u <= 0x0D
    ||| u == 0x20
    ||| u == 0x85
    ||| u == 0xA0
    ||| u == 0x1680
    ||| 0x2000 <= u <= 0x200A
    ||| u == 0x2028
    ||| u == 0x2029
    ||| u == 0x202F
    ||| u == 0x205F
    ||| u == 0x3000
}

/// `s` without its leading whitespace.
pub open spec fn trim_front(s: Seq<char>) -> Seq<char>
    decreases s.len(),
{
    if s.len() > 0 && is_ws(s[0]) {
        trim_front(s.drop_first())
    } else {
        s
    }
}

/// `s` without its trailing whitespace.
pub open spec fn trim_back(s: Seq<char>) -> Seq<char>
    decreases s.len(),
{
    if s.len() > 0 && is_ws(s.last()) {
        trim_back(s.drop_last())
    } else {
        s
    }
}

/// `s` without leading and trailing whitespace, as `str::trim` gives it.
pub open spec fn trimmed(s: Seq<char>) -> Seq<char> {
    trim_back(trim_front(s))
}

/// `pat` occurs in `s` starting at position `i`.
pub open spec fn occurs_at(s: Seq<char>, pat: Seq<char>, i: int) -> bool {
    0 <= i && i + pat.len() <= s.len() && s.subrange(i, i + pat.len()) == pat
}

/// The first position at or after `start` where `pat` occurs in `s`.
pub open spec fn find_from_spec(s: Seq<char>, pat: Seq<char>, start: nat) -> Option<nat>
    decreases s.len() + 1 - start,
{
    if start + pat.len() > s.len() {
        None
    } else if occurs_at(s, pat, start as int) {
        Some(start)
    } else {
        find_from_spec(s, pat, start + 1)
    }
}

/// The first position where `pat` occurs in `s`, as `str::find` gives it
/// (counted in characters).
pub open spec fn find_spec(s: Seq<char>, pat: Seq<char>) -> Option<nat> {
    find_from_spec(s, pat, 0)
}

/// `pat` occurs somewhere in `s`.
pub open spec fn contains_spec(s: Seq<char>, pat: Seq<char>) -> bool {
    find_spec(s, pat) is Some
}

/// The last position at or before `hi` where `pat` occurs in `s`.
pub open spec fn rfind_upto(s: Seq<char>, pat: Seq<char>, hi: int) -> Option<nat>
    decreases hi + 1,
{
    if hi < 0 {
        None
    } else if occurs_at(s, pat, hi) {
        Some(hi as nat)
    } else {
        rfind_upto(s, pat, hi - 1)
    }
}

/// The last position where `pat` occurs in `s`, as `str::rfind` gives it
/// (counted in characters).
pub open spec fn rfind_spec(s: Seq<char>, pat: Seq<char>) -> Option<nat> {
    rfind_upto(s, pat, s.len() - pat.len())
}

/// The number of bytes that `c` takes in UTF-8.
pub open spec fn utf8_width(c: char) -> nat {
    let u = c as u32;
    if u < 0x80 {
        1
    } else if u < 0x800 {
        2
    } else if u < 0x10000 {
        3
    } else {
        4
    }
}

/// The number of bytes that `s` takes in UTF-8, as `str::len` gives it.
pub open spec fn utf8_len(s: Seq<char>) -> nat
    decreases s.len(),
{
    if s.len() == 0 {
        0
    } else {
        utf8_len(s.drop_last()) + utf8_width(s.last())
    }
}

/// Maps an optional index to the integers.
pub open spec fn opt_nat(o: Option<usize>) -> Option<nat> {
    match o {
        Some(i) => Some(i as nat),
        None => None,
    }
}

// ── Lemmas ────────────────────────────────────────────────────────────────

pub proof fn lemma_find_from_none(s: Seq<char>, pat: Seq<char>, start: nat)
    requires
        forall|j: int| start <= j ==> !occurs_at(s, pat, j),
    ensures
        find_from_spec(s, pat, start) is None,
    decreases s.len() + 1 - start,
{
    if start + pat.len() <= s.len() {
        lemma_find_from_none(s, pat, start + 1);
    }
}

pub proof fn lemma_find_from_some(s: Seq<char>, pat: Seq<char>, start: nat, i: nat)
    requires
        start <= i,
        occurs_at(s, pat, i as int),
        forall|j: int| start <= j < i ==> !occurs_at(s, pat, j),
    ensures
        find_from_spec(s, pat, start) == Some(i),
    decreases i - start,
{
    if start < i {
        lemma_find_from_some(s, pat, start + 1, i);
    }
}

pub proof fn lemma_rfind_upto_none(s: Seq<char>, pat: Seq<char>, hi: int)
    requires
        forall|j: int| j <= hi ==> !occurs_at(s, pat, j),
    ensures
        rfind_upto(s, pat, hi) is None,
    decreases hi + 1,
{
    if hi >= 0 {
        lemma_rfind_upto_none(s, pat, hi - 1);
    }
}

pub proof fn lemma_rfind_upto_some(s: Seq<char>, pat: Seq<char>, hi: int, i: int)
    requires
        i <= hi,
        occurs_at(s, pat, i),
        forall|j: int| i < j <= hi ==> !occurs_at(s, pat, j),
    ensures
        rfind_upto(s, pat, hi) == Some(i as nat),
    decreases hi - i,
{
    if i < hi {
        lemma_rfind_upto_some(s, pat, hi - 1, i);
    }
}

proof fn lemma_trim_front_skip(s: Seq<char>, i: int)
    requires
        0 <= i <= s.len(),
        forall|k: int| 0 <= k < i ==> is_ws(s[k]),
    ensures
        trim_front(s) == trim_front(s.subrange(i, s.len() as int)),
    decreases i,
{
    if i > 0 {
        assert(s.drop_first().subrange(i - 1, s.drop_first().len() as int) =~= s.subrange(
            i,
            s.len() as int,
        ));
        lemma_trim_front_skip(s.drop_first(), i - 1);
    } else {
        assert(s.subrange(0, s.len() as int) =~= s);
    }
}

proof fn lemma_trim_back_skip(s: Seq<char>, j: int)
    requires
        0 <= j <= s.len(),
        forall|k: int| j <= k < s.len() ==> is_ws(s[k]),
    ensures
        trim_back(s) == trim_back(s.subrange(0, j)),
    decreases s.len() - j,
{
    if j < s.len() {
        assert(s.drop_last().subrange(0, j) =~= s.subrange(0, j));
        lemma_trim_back_skip(s.drop_last(), j);
    } else {
        assert(s.subrange(0, j) =~= s);
    }
}

pub proof fn lemma_utf8_len_push(s: Seq<char>, c: char)
    ensures
        utf8_len(s.push(c)) == utf8_len(s) + utf8_width(c),
{
    assert(s.push(c).drop_last() =~= s);
}

/// An occurrence at or after `start` is found.
pub proof fn lemma_find_from_exists(s: Seq<char>, pat: Seq<char>, start: nat, i: nat)
    requires
        start <= i,
        occurs_at(s, pat, i as int),
    ensures
        find_from_spec(s, pat, start) is Some,
    decreases i - start,
{
    if start < i && !occurs_at(s, pat, start as int) {
        lemma_find_from_exists(s, pat, start + 1, i);
    }
}

/// What the first occurrence at or after `start` is.
pub proof fn lemma_find_from_spec_props(s: Seq<char>, pat: Seq<char>, start: nat)
    ensures
        find_from_spec(s, pat, start) matches Some(i) ==> start <= i && occurs_at(
            s,
            pat,
            i as int,
        ) && i + pat.len() <= s.len(),
    decreases s.len() + 1 - start,
{
    if start + pat.len() <= s.len() && !occurs_at(s, pat, start as int) {
        lemma_find_from_spec_props(s, pat, start + 1);
    }
}

/// What the last occurrence is.
pub proof fn lemma_rfind_spec_props(s: Seq<char>, pat: Seq<char>, hi: int)
    ensures
        rfind_upto(s, pat, hi) matches Some(i) ==> i <= hi && occurs_at(s, pat, i as int),
    decreases hi + 1,
{
    if hi >= 0 && !occurs_at(s, pat, hi) {
        lemma_rfind_spec_props(s, pat, hi - 1);
    }
}

// ── Conversions ───────────────────────────────────────────────────────────

/// The characters of `s`, in order.
pub fn chars_of(s: &str) -> (v: Vec<char>)
    ensures
        v@ == s@,
{
    let mut v: Vec<char> = Vec::new();
    for c in it: s.chars()
        invariant
            v@ == it.seq().take(it.index()),
            it.seq() == s@,
    {
        v.push(c);
    }
    v
}

/// `String::push` (std): appends the character `c` at the end of `s`, which
/// is what its documentation says and what the contract claims.
#[verifier::external_body]
fn push_char(s: &mut String, c: char)
    ensures
        final(s)@ == old(s)@.push(c),
{
    s.push(c);
}

/// The string made of the characters `v[from..to]`.
pub fn string_of_range(v: &[char], from: usize, to: usize) -> (s: String)
    requires
        from <= to <= v.len(),
    ensures
        s@ == v@.subrange(from as int, to as int),
{
    let mut s = String::new();
    let mut i = from;
    while i < to
        invariant
            from <= i <= to <= v.len(),
            s@ == v@.subrange(from as int, i as int),
        decreases to - i,
    {
        push_char(&mut s, v[i]);
        assert(v@.subrange(from as int, i + 1) =~= v@.subrange(from as int, i as int).push(
            v@[i as int],
        ));
        i += 1;
    }
    s
}

/// The string made of the characters `v`.
pub fn string_of(v: &[char]) -> (s: String)
    ensures
        s@ == v@,
{
    let s = string_of_range(v, 0, v.len());
    assert(v@.subrange(0, v@.len() as int) =~= v@);
    s
}

/// The characters of `a` followed by those of `b`.
pub fn concat_chars(a: &[char], b: &[char]) -> (r: Vec<char>)
    ensures
        r@ == a@ + b@,
{
    let mut r: Vec<char> = Vec::new();
    let mut i: usize = 0;
    while i < a.len()
        invariant
            i <= a.len(),
            r@ == a@.subrange(0, i as int),
        decreases a.len() - i,
    {
        r.push(a[i]);
        assert(a@.subrange(0, i + 1) =~= a@.subrange(0, i as int).push(a@[i as int]));
        i += 1;
    }
    let mut j: usize = 0;
    while j < b.len()
        invariant
            i == a.len(),
            j <= b.len(),
            r@ == a@ + b@.subrange(0, j as int),
        decreases b.len() - j,
    {
        r.push(b[j]);
        assert(b@.subrange(0, j + 1) =~= b@.subrange(0, j as int).push(b@[j as int]));
        j += 1;
    }
    assert(b@.subrange(0, b@.len() as int) =~= b@);
    assert(a@.subrange(0, a@.len() as int) =~= a@);
    r
}

// ── Predicates and searches ───────────────────────────────────────────────

/// Whether `c` is whitespace (`char::is_whitespace`).
pub fn is_whitespace(c: char) -> (r: bool)
    ensures
        r == is_ws(c),
{
    let u = c as u32;
    (0x09 <= u && u <= 0x0D) || u == 0x20 || u == 0x85 || u == 0xA0 || u == 0x1680 || (0x2000
        <= u && u <= 0x200A) || u == 0x2028 || u == 0x2029 || u == 0x202F || u == 0x205F || u
        == 0x3000
}

/// Whether the two sequences are equal.
pub fn chars_eq(a: &[char], b: &[char]) -> (r: bool)
    ensures
        r == (a@ == b@),
{
    if a.len() != b.len() {
        return false;
    }
    let mut i: usize = 0;
    while i < a.len()
        invariant
            a.len() == b.len(),
            i <= a.len(),
            forall|k: int| 0 <= k < i ==> a@[k] == b@[k],
        decreases a.len() - i,
    {
        if a[i] != b[i] {
            return false;
        }
        i += 1;
    }
    assert(a@ =~= b@);
    true
}

/// Whether `pat` occurs in `s` at position `i`.
pub fn matches_at(s: &[char], pat: &[char], i: usize) -> (r: bool)
    ensures
        r == occurs_at(s@, pat@, i as int),
{
    if pat.len() > s.len() || i > s.len() - pat.len() {
        return false;
    }
    let mut k: usize = 0;
    while k < pat.len()
        invariant
            k <= pat.len(),
            i + pat.len() <= s.len(),
            forall|j: int| 0 <= j < k ==> s@[i + j] == pat@[j],
        decreases pat.len() - k,
    {
        if s[i + k] != pat[k] {
            assert(s@.subrange(i as int, i + pat.len())[k as int] != pat@[k as int]);
            return false;
        }
        k += 1;
    }
    assert(s@.subrange(i as int, i + pat.len()) =~= pat@);
    true
}

/// The first position at or after `start` where `pat` occurs in `s`.
pub fn find_from(s: &[char], pat: &[char], start: usize) -> (r: Option<usize>)
    ensures
        opt_nat(r) == find_from_spec(s@, pat@, start as nat),
        r matches Some(i) ==> occurs_at(s@, pat@, i as int) && start <= i,
{
    if pat.len() > s.len() {
        proof {
            lemma_find_from_none(s@, pat@, start as nat);
        }
        return None;
    }
    let last = s.len() - pat.len();
    if start > last {
        proof {
            lemma_find_from_none(s@, pat@, start as nat);
        }
        return None;
    }
    let mut i = start;
    while i < last
        invariant
            last == s.len() - pat.len(),
            start <= i <= last,
            forall|j: int| start <= j < i ==> !occurs_at(s@, pat@, j),
        decreases last - i,
    {
        if matches_at(s, pat, i) {
            proof {
                lemma_find_from_some(s@, pat@, start as nat, i as nat);
            }
            return Some(i);
        }
        i += 1;
    }
    if matches_at(s, pat, last) {
        proof {
            lemma_find_from_some(s@, pat@, start as nat, last as nat);
        }
        return Some(last);
    }
    proof {
        lemma_find_from_none(s@, pat@, start as nat);
    }
    None
}

/// The first position where `pat` occurs in `s`.
pub fn find(s: &[char], pat: &[char]) -> (r: Option<usize>)
    ensures
        opt_nat(r) == find_spec(s@, pat@),
        r matches Some(i) ==> occurs_at(s@, pat@, i as int),
{
    find_from(s, pat, 0)
}

/// Whether `pat` occurs in `s`.
pub fn contains(s: &[char], pat: &[char]) -> (r: bool)
    ensures
        r == contains_spec(s@, pat@),
{
    find(s, pat).is_some()
}

/// Whether `s` begins with `pat`.
pub fn starts_with(s: &[char], pat: &[char]) -> (r: bool)
    ensures
        r == occurs_at(s@, pat@, 0),
{
    matches_at(s, pat, 0)
}

/// The last position where `pat` occurs in `s`.
pub fn rfind(s: &[char], pat: &[char]) -> (r: Option<usize>)
    ensures
        opt_nat(r) == rfind_spec(s@, pat@),
        r matches Some(i) ==> occurs_at(s@, pat@, i as int),
{
    if pat.len() > s.len() {
        proof {
            lemma_rfind_upto_none(s@, pat@, s@.len() - pat@.len());
        }
        return None;
    }
    let last = s.len() - pat.len();
    if matches_at(s, pat, last) {
        proof {
            lemma_rfind_upto_some(s@, pat@, s@.len() - pat@.len(), last as int);
        }
        return Some(last);
    }
    let mut i = last;
    while i > 0
        invariant
            i <= last,
            last == s.len() - pat.len(),
            forall|j: int| i <= j <= last ==> !occurs_at(s@, pat@, j),
        decreases i,
    {
        if matches_at(s, pat, i - 1) {
            proof {
                lemma_rfind_upto_some(s@, pat@, s@.len() - pat@.len(), i - 1);
            }
            return Some(i - 1);
        }
        i -= 1;
    }
    proof {
        lemma_rfind_upto_none(s@, pat@, s@.len() - pat@.len());
    }
    None
}

/// The bounds of `s` without leading and trailing whitespace.
pub fn trim_bounds(s: &[char]) -> (r: (usize, usize))
    ensures
        r.0 <= r.1 <= s.len(),
        s@.subrange(r.0 as int, r.1 as int) == trimmed(s@),
{
    let mut i: usize = 0;
    while i < s.len() && is_whitespace(s[i])
        invariant
            i <= s.len(),
            forall|k: int| 0 <= k < i ==> is_ws(s@[k]),
        decreases s.len() - i,
    {
        i += 1;
    }
    let ghost rest = s@.subrange(i as int, s@.len() as int);
    proof {
        lemma_trim_front_skip(s@, i as int);
        assert(trim_front(rest) == rest);
    }
    let mut j: usize = s.len();
    while j > i && is_whitespace(s[j - 1])
        invariant
            i <= j <= s.len(),
            forall|k: int| j <= k < s.len() ==> is_ws(s@[k]),
        decreases j,
    {
        j -= 1;
    }
    proof {
        let jj = j - i;
        assert forall|k: int| jj <= k < rest.len() implies is_ws(rest[k]) by {
            assert(rest[k] == s@[k + i]);
        }
        lemma_trim_back_skip(rest, jj);
        let core = rest.subrange(0, jj);
        assert(core =~= s@.subrange(i as int, j as int));
        if core.len() > 0 {
            assert(core.last() == s@[j - 1]);
        }
        assert(trim_back(core) == core);
    }
    (i, j)
}

/// `s` without leading and trailing whitespace (`str::trim`).
pub fn trim(s: &[char]) -> (r: Vec<char>)
    ensures
        r@ == trimmed(s@),
{
    let (a, b) = trim_bounds(s);
    let mut r: Vec<char> = Vec::new();
    let mut i = a;
    while i < b
        invariant
            a <= i <= b <= s.len(),
            r@ == s@.subrange(a as int, i as int),
        decreases b - i,
    {
        r.push(s[i]);
        assert(s@.subrange(a as int, i + 1) =~= s@.subrange(a as int, i as int).push(
            s@[i as int],
        ));
        i += 1;
    }
    r
}

/// The characters `s[from..to]`.
pub fn slice_chars(s: &[char], from: usize, to: usize) -> (r: Vec<char>)
    requires
        from <= to <= s.len(),
    ensures
        r@ == s@.subrange(from as int, to as int),
{
    let mut r: Vec<char> = Vec::new();
    let mut i = from;
    while i < to
        invariant
            from <= i <= to <= s.len(),
            r@ == s@.subrange(from as int, i as int),
        decreases to - i,
    {
        r.push(s[i]);
        assert(s@.subrange(from as int, i + 1) =~= s@.subrange(from as int, i as int).push(
            s@[i as int],
        ));
        i += 1;
    }
    r
}

/// The width of `c` in UTF-8 bytes (`char::len_utf8`).
pub fn char_utf8_width(c: char) -> (r: usize)
    ensures
        r == utf8_width(c),
{
    let u = c as u32;
    if u < 0x80 {
        1
    } else if u < 0x800 {
        2
    } else if u < 0x10000 {
        3
    } else {
        4
    }
}

/// Whether `s[from..]` takes more than `limit` bytes in UTF-8.
pub fn utf8_len_exceeds(s: &[char], from: usize, limit: usize) -> (r: bool)
    requires
        from <= s.len(),
    ensures
        r == (utf8_len(s@.subrange(from as int, s.len() as int)) > limit),
{
    let mut total: usize = 0;
    let mut i = from;
    while i < s.len()
        invariant
            from <= i <= s.len(),
            total == utf8_len(s@.subrange(from as int, i as int)),
            total <= limit,
        decreases s.len() - i,
    {
        let w = char_utf8_width(s[i]);
        proof {
            assert(s@.subrange(from as int, i + 1) =~= s@.subrange(from as int, i as int).push(
                s@[i as int],
            ));
            lemma_utf8_len_push(s@.subrange(from as int, i as int), s@[i as int]);
        }
        if w > limit - total {
            proof {
                lemma_utf8_len_monotone(s@.subrange(from as int, s.len() as int), i + 1 - from);
                assert(s@.subrange(from as int, s.len() as int).subrange(0, i + 1 - from)
                    =~= s@.subrange(from as int, i + 1));
            }
            return true;
        }
        total = total + w;
        i += 1;
    }
    false
}

/// A prefix takes no more UTF-8 bytes than the whole.
pub proof fn lemma_utf8_len_monotone(s: Seq<char>, k: int)
    requires
        0 <= k <= s.len(),
    ensures
        utf8_len(s.subrange(0, k)) <= utf8_len(s),
    decreases s.len() - k,
{
    if k < s.len() {
        lemma_utf8_len_monotone(s, k + 1);
        let p = s.subrange(0, k + 1);
        assert(p.drop_last() =~= s.subrange(0, k));
    } else {
        assert(s.subrange(0, k) =~= s);
    }
}

/// `s` without leading and trailing whitespace, as a new string.
pub fn trim_str(s: &str) -> (r: String)
    ensures
        r@ == trimmed(s@),
{
    let v = chars_of(s);
    let t = trim(v.as_slice());
    string_of(t.as_slice())
}

/// The concatenation of `a` and `b`.
pub fn join2(a: &str, b: &str) -> (r: String)
    ensures
        r@ == a@ + b@,
{
    let s = a.to_string();
    s.concat(b)
}

/// The concatenation of `a`, `b` and `c`.
pub fn join3(a: &str, b: &str, c: &str) -> (r: String)
    ensures
        r@ == a@ + b@ + c@,
{
    let s = a.to_string();
    let s = s.concat(b);
    s.concat(c)
}

} // verus!
