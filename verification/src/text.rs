use vstd::prelude::*;

verus! {

// ---------------------------------------------------------------------------
// Characters and strings
// ---------------------------------------------------------------------------

/// Appends one character to a string (`String::push`).
#[verifier::external_body]
pub(crate) fn push_char(s: &mut String, c: char)
    ensures
        final(s)@ == old(s)@.push(c),
{
    s.push(c);
}

/// The characters of `s`, in order.
pub fn chars_of(s: &str) -> (r: Vec<char>)
    ensures
        r@ == s@,
{
    let mut r: Vec<char> = Vec::new();
    for c in it: s.chars()
        invariant
            r@ == it.seq().take(it.index() as int),
            it.seq() == s@,
    {
        r.push(c);
    }
    r
}

/// A string holding exactly the characters `cs`.
pub fn string_from_chars(cs: &[char]) -> (r: String)
    ensures
        r@ == cs@,
{
    let mut r = String::new();
    let n = cs.len();
    for i in 0..n
        invariant
            n == cs@.len(),
            r@ == cs@.take(i as int),
    {
        push_char(&mut r, cs[i]);
        assert(cs@.take(i + 1) == cs@.take(i as int).push(cs@[i as int]));
    }
    assert(cs@.take(n as int) == cs@);
    r
}

/// Whether two strings hold the same characters.
pub fn same_text(a: &str, b: &str) -> (r: bool)
    ensures
        r == (a@ == b@),
{
    let x = chars_of(a);
    let y = chars_of(b);
    if x.len() != y.len() {
        return false;
    }
    let n = x.len();
    for i in 0..n
        invariant
            n == x@.len(),
            n == y@.len(),
            x@ == a@,
            y@ == b@,
            forall|k: int| 0 <= k < i ==> x@[k] == y@[k],
    {
        if x[i] != y[i] {
            assert(x@[i as int] != y@[i as int]);
            return false;
        }
    }
    assert(x@ =~= y@);
    true
}

// ---------------------------------------------------------------------------
// White space (the Unicode `White_Space` property, as `char::is_whitespace`)
// ---------------------------------------------------------------------------

pub open spec fn is_white_space(c: char) -> bool {
    let u = c as u32;
    ||| 0x9 <= u <= 0xd
    ||| u == 0x20
    ||| u == 0x85
    ||| u == 0xa0
    ||| u == 0x1680
    ||| 0x2000 <= u <= 0x200a
    ||| u == 0x2028
    ||| u == 0x2029
    ||| u == 0x202f
    ||| u == 0x205f
    ||| u == 0x3000
}

pub fn white_space(c: char) -> (r: bool)
    ensures
        r == is_white_space(c),
{
    let u = c as u32;
    (0x9 <= u && u <= 0xd) || u == 0x20 || u == 0x85 || u == 0xa0 || u == 0x1680 || (0x2000 <= u
        && u <= 0x200a) || u == 0x2028 || u == 0x2029 || u == 0x202f || u == 0x205f || u == 0x3000
}

/// Index of the first character at or after `i` that is not white space (or `s.len()`).
pub open spec fn skip_ws(s: Seq<char>, i: int) -> int
    decreases s.len() - i,
{
    if i < 0 || i >= s.len() {
        s.len() as int
    } else if is_white_space(s[i]) {
        skip_ws(s, i + 1)
    } else {
        i
    }
}

/// Index of the first white-space character at or after `i` (or `s.len()`).
pub open spec fn skip_non_ws(s: Seq<char>, i: int) -> int
    decreases s.len() - i,
{
    if i < 0 || i >= s.len() {
        s.len() as int
    } else if !is_white_space(s[i]) {
        skip_non_ws(s, i + 1)
    } else {
        i
    }
}

/// End of `s.take(j)` once trailing white space is dropped.
pub open spec fn trim_end_at(s: Seq<char>, j: int) -> int
    decreases j,
{
    if j <= 0 || j > s.len() {
        0
    } else if is_white_space(s[j - 1]) {
        trim_end_at(s, j - 1)
    } else {
        j
    }
}

/// `s` without its leading and trailing white space (`str::trim`).
pub open spec fn trimmed(s: Seq<char>) -> Seq<char> {
    let a = skip_ws(s, 0);
    if a == s.len() {
        Seq::empty()
    } else {
        s.subrange(a, trim_end_at(s, s.len() as int))
    }
}

/// The first white-space separated word of `s`, if any (`split_whitespace().next()`).
pub open spec fn first_word(s: Seq<char>) -> Option<Seq<char>> {
    let a = skip_ws(s, 0);
    if a == s.len() {
        None
    } else {
        Some(s.subrange(a, skip_non_ws(s, a)))
    }
}

proof fn lemma_skip_ws_bounds(s: Seq<char>, i: int)
    requires
        0 <= i <= s.len(),
    ensures
        i <= skip_ws(s, i) <= s.len(),
        skip_ws(s, i) < s.len() ==> !is_white_space(s[skip_ws(s, i)]),
    decreases s.len() - i,
{
    if i < s.len() && is_white_space(s[i]) {
        lemma_skip_ws_bounds(s, i + 1);
    }
}

proof fn lemma_skip_non_ws_bounds(s: Seq<char>, i: int)
    requires
        0 <= i <= s.len(),
    ensures
        i <= skip_non_ws(s, i) <= s.len(),
    decreases s.len() - i,
{
    if i < s.len() && !is_white_space(s[i]) {
        lemma_skip_non_ws_bounds(s, i + 1);
    }
}

proof fn lemma_trim_end_bounds(s: Seq<char>, j: int, a: int)
    requires
        0 <= a < j <= s.len(),
        !is_white_space(s[a]),
    ensures
        a < trim_end_at(s, j) <= j,
    decreases j,
{
    if is_white_space(s[j - 1]) {
        lemma_trim_end_bounds(s, j - 1, a);
    }
}

fn skip_ws_exec(s: &Vec<char>, start: usize) -> (r: usize)
    requires
        start <= s@.len(),
    ensures
        r == skip_ws(s@, start as int),
        start <= r <= s@.len(),
{
    let mut i = start;
    while i < s.len() && white_space(s[i])
        invariant
            start <= i <= s@.len(),
            skip_ws(s@, i as int) == skip_ws(s@, start as int),
        decreases s@.len() - i,
    {
        i = i + 1;
    }
    i
}

fn skip_non_ws_exec(s: &Vec<char>, start: usize) -> (r: usize)
    requires
        start <= s@.len(),
    ensures
        r == skip_non_ws(s@, start as int),
        start <= r <= s@.len(),
{
    let mut i = start;
    while i < s.len() && !white_space(s[i])
        invariant
            start <= i <= s@.len(),
            skip_non_ws(s@, i as int) == skip_non_ws(s@, start as int),
        decreases s@.len() - i,
    {
        i = i + 1;
    }
    i
}

/// Copy of `s[a..b]`.
pub fn copy_range(s: &Vec<char>, a: usize, b: usize) -> (r: Vec<char>)
    requires
        a <= b <= s@.len(),
    ensures
        r@ == s@.subrange(a as int, b as int),
{
    let mut r: Vec<char> = Vec::new();
    let mut i = a;
    while i < b
        invariant
            a <= i <= b <= s@.len(),
            r@ == s@.subrange(a as int, i as int),
        decreases b - i,
    {
        r.push(s[i]);
        i = i + 1;
    }
    r
}

/// `s` without leading and trailing white space.
pub fn trim_chars(s: &Vec<char>) -> (r: Vec<char>)
    ensures
        r@ == trimmed(s@),
{
    let a = skip_ws_exec(s, 0);
    if a == s.len() {
        return Vec::new();
    }
    proof {
        lemma_skip_ws_bounds(s@, 0);
    }
    let mut j = s.len();
    while j > 0 && white_space(s[j - 1])
        invariant
            a < s@.len(),
            !is_white_space(s@[a as int]),
            a < j <= s@.len(),
            trim_end_at(s@, j as int) == trim_end_at(s@, s@.len() as int),
        decreases j,
    {
        j = j - 1;
    }
    copy_range(s, a, j)
}

/// The first white-space separated word of `s`.
pub fn first_word_of(s: &Vec<char>) -> (r: Option<Vec<char>>)
    ensures
        match first_word(s@) {
            Some(w) => r is Some && r->0@ == w,
            None => r is None,
        },
{
    let a = skip_ws_exec(s, 0);
    if a == s.len() {
        return None;
    }
    let b = skip_non_ws_exec(s, a);
    Some(copy_range(s, a, b))
}

// ---------------------------------------------------------------------------
// Searching
// ---------------------------------------------------------------------------

/// `pat` occurs in `s` starting at position `i`.
pub open spec fn occurs_at(s: Seq<char>, pat: Seq<char>, i: int) -> bool {
    0 <= i && i + pat.len() <= s.len() && s.subrange(i, i + pat.len()) == pat
}

/// `pat` occurs somewhere in `s` (`str::contains`).
pub open spec fn contains_text(s: Seq<char>, pat: Seq<char>) -> bool {
    exists|i: int| occurs_at(s, pat, i)
}

fn matches_at(s: &Vec<char>, pat: &Vec<char>, i: usize) -> (r: bool)
    requires
        i + pat@.len() <= s@.len(),
    ensures
        r == occurs_at(s@, pat@, i as int),
{
    let m = pat.len();
    for k in 0..m
        invariant
            m == pat@.len(),
            i + m <= s.len(),
            forall|t: int| 0 <= t < k ==> s@[i + t] == pat@[t],
    {
        if s[i + k] != pat[k] {
            assert(s@.subrange(i as int, i + m)[k as int] != pat@[k as int]);
            return false;
        }
    }
    assert(s@.subrange(i as int, i + m) =~= pat@);
    true
}

/// Whether `pat` occurs in `s`.
pub fn contains_chars(s: &Vec<char>, pat: &Vec<char>) -> (r: bool)
    ensures
        r == contains_text(s@, pat@),
{
    if pat.len() > s.len() {
        return false;
    }
    let last = s.len() - pat.len();
    let mut i: usize = 0;
    loop
        invariant
            last == s@.len() - pat@.len(),
            i <= last,
            forall|t: int| 0 <= t < i ==> !occurs_at(s@, pat@, t),
        decreases last - i,
    {
        if matches_at(s, pat, i) {
            return true;
        }
        if i == last {
            return false;
        }
        i = i + 1;
    }
}

// ---------------------------------------------------------------------------
// Lines
// ---------------------------------------------------------------------------

/// Splitting at `'\n'`: the lines already closed, and the line being read.
pub open spec fn split_state(s: Seq<char>) -> (Seq<Seq<char>>, Seq<char>)
    decreases s.len(),
{
    if s.len() == 0 {
        (Seq::empty(), Seq::empty())
    } else {
        let (done, cur) = split_state(s.drop_last());
        if s.last() == '\n' {
            (done.push(cur), Seq::empty())
        } else {
            (done, cur.push(s.last()))
        }
    }
}

/// The pieces of `s` between `'\n'` characters (`str::split('\n')`).
pub open spec fn line_pieces(s: Seq<char>) -> Seq<Seq<char>> {
    split_state(s).0.push(split_state(s).1)
}

/// The pieces of `s` between `'\n'` characters.
pub fn split_lines(s: &Vec<char>) -> (r: Vec<Vec<char>>)
    ensures
        r@.len() == line_pieces(s@).len(),
        forall|k: int| 0 <= k < r@.len() ==> #[trigger] r@[k]@ == line_pieces(s@)[k],
{
    let mut done: Vec<Vec<char>> = Vec::new();
    let mut cur: Vec<char> = Vec::new();
    let n = s.len();
    for i in 0..n
        invariant
            n == s@.len(),
            done@.len() == split_state(s@.take(i as int)).0.len(),
            forall|k: int| 0 <= k < done@.len() ==> #[trigger] done@[k]@ == split_state(
                s@.take(i as int),
            ).0[k],
            cur@ == split_state(s@.take(i as int)).1,
    {
        assert(s@.take(i + 1).drop_last() == s@.take(i as int));
        assert(s@.take(i + 1).last() == s@[i as int]);
        if s[i] == '\n' {
            let line = cur;
            cur = Vec::new();
            done.push(line);
        } else {
            cur.push(s[i]);
        }
    }
    assert(s@.take(n as int) == s@);
    done.push(cur);
    done
}

// ---------------------------------------------------------------------------
// Decimal numbers
// ---------------------------------------------------------------------------

pub open spec fn digit(d: nat) -> char {
    (d + 48) as char
}

/// Decimal representation of `n`, without leading zeros.
pub open spec fn decimal(n: nat) -> Seq<char>
    decreases n,
{
    if n < 10 {
        seq![digit(n)]
    } else {
        decimal(n / 10).push(digit(n % 10))
    }
}

/// Decimal representation of `n`, zero-padded to at least two digits (`{:02}`).
pub open spec fn decimal2(n: nat) -> Seq<char> {
    if n < 10 {
        seq!['0'].add(decimal(n))
    } else {
        decimal(n)
    }
}

fn digit_char(d: usize) -> (c: char)
    requires
        d < 10,
    ensures
        c == digit(d as nat),
{
    let b: u8 = d as u8 + 48;
    b as char
}

/// Appends the decimal representation of `n`.
pub fn push_decimal(out: &mut Vec<char>, n: usize)
    ensures
        final(out)@ == old(out)@ + decimal(n as nat),
    decreases n,
{
    if n >= 10 {
        push_decimal(out, n / 10);
    }
    out.push(digit_char(n % 10));
}

/// Appends the decimal representation of `n`, zero-padded to two digits.
pub fn push_decimal2(out: &mut Vec<char>, n: usize)
    ensures
        final(out)@ == old(out)@ + decimal2(n as nat),
{
    if n < 10 {
        out.push('0');
    }
    push_decimal(out, n);
}


proof fn lemma_skip_ws_prefix_white(s: Seq<char>, i: int, k: int)
    requires
        0 <= i <= k < skip_ws(s, i),
        i <= s.len(),
    ensures
        is_white_space(s[k]),
    decreases s.len() - i,
{
    if i < s.len() && is_white_space(s[i]) {
        if k > i {
            lemma_skip_ws_prefix_white(s, i + 1, k);
        }
    }
}

proof fn lemma_trim_end_suffix_white(s: Seq<char>, j: int, k: int)
    requires
        0 <= j <= s.len(),
        trim_end_at(s, j) <= k < j,
    ensures
        is_white_space(s[k]),
    decreases j,
{
    if j > 0 && is_white_space(s[j - 1]) {
        if k < j - 1 {
            lemma_trim_end_suffix_white(s, j - 1, k);
        }
    }
}

proof fn lemma_trim_end_last(s: Seq<char>, j: int)
    requires
        0 <= j <= s.len(),
        trim_end_at(s, j) > 0,
    ensures
        trim_end_at(s, j) <= j,
        !is_white_space(s[trim_end_at(s, j) - 1]),
    decreases j,
{
    if j > 0 && is_white_space(s[j - 1]) {
        lemma_trim_end_last(s, j - 1);
    }
}

/// Law: trimming removes white space at both ends and nothing else. A string of white space
/// trims to nothing; otherwise the trimmed string is the stretch of `s` from its first to its
/// last character that is not white space, inner white space and line breaks included.
pub proof fn law_trim_only_ends(s: Seq<char>)
    ensures
        (forall|k: int| 0 <= k < s.len() ==> is_white_space(#[trigger] s[k])) ==> trimmed(s).len()
            == 0,
        (exists|k: int| 0 <= k < s.len() && !is_white_space(#[trigger] s[k])) ==> exists|
            i: int,
            j: int,
        |
            {
                &&& 0 <= i < j <= s.len()
                &&& trimmed(s) == s.subrange(i, j)
                &&& !is_white_space(s[i])
                &&& !is_white_space(s[j - 1])
                &&& forall|k: int|
                    (0 <= k < i || j <= k < s.len()) ==> is_white_space(#[trigger] s[k])
            },
        s.len() > 0 && !is_white_space(s[0]) && !is_white_space(s[s.len() - 1]) ==> trimmed(s)
            == s,
{
    lemma_skip_ws_bounds(s, 0);
    let a = skip_ws(s, 0);
    if a == s.len() {
        if exists|k: int| 0 <= k < s.len() && !is_white_space(#[trigger] s[k]) {
            let k = choose|k: int| 0 <= k < s.len() && !is_white_space(#[trigger] s[k]);
            lemma_skip_ws_prefix_white(s, 0, k);
        }
    } else {
        lemma_trim_end_bounds(s, s.len() as int, a);
        let b = trim_end_at(s, s.len() as int);
        lemma_trim_end_last(s, s.len() as int);
        assert forall|k: int| (0 <= k < a || b <= k < s.len()) implies is_white_space(
            #[trigger] s[k],
        ) by {
            if k < a {
                lemma_skip_ws_prefix_white(s, 0, k);
            } else {
                lemma_trim_end_suffix_white(s, s.len() as int, k);
            }
        }
        assert(trimmed(s) == s.subrange(a, b));
        if s.len() > 0 && !is_white_space(s[0]) && !is_white_space(s[s.len() - 1]) {
            assert(a == 0);
            assert(b == s.len());
            assert(s.subrange(0, s.len() as int) =~= s);
        }
    }
}

} // verus!
