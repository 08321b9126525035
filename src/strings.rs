use vstd::prelude::*;
use crate::text::{lemma_lines_of, lemma_lines_push, lines_of};

verus! {

/// Relies on `String::push`: `c` is appended.
#[verifier::external_body]
pub(crate) fn push_char(s: &mut String, c: char)
    ensures
        final(s)@ == old(s)@.push(c),
{
    s.push(c)
}

} // verus!

verus! {

/// The decimal digit for `d`, which is below ten.
pub open spec fn digit_char(d: int) -> char {
    if d == 0 { '0' }
    else if d == 1 { '1' }
    else if d == 2 { '2' }
    else if d == 3 { '3' }
    else if d == 4 { '4' }
    else if d == 5 { '5' }
    else if d == 6 { '6' }
    else if d == 7 { '7' }
    else if d == 8 { '8' }
    else { '9' }
}

/// `n` written in decimal, without leading zeros.
pub open spec fn decimal(n: nat) -> Seq<char>
    decreases n,
{
    if n < 10 {
        seq![digit_char(n as int)]
    } else {
        decimal(n / 10).push(digit_char((n % 10) as int))
    }
}

fn digit_of(d: u64) -> (c: char)
    requires
        d < 10,
    ensures
        c == digit_char(d as int),
{
    if d == 0 { '0' }
    else if d == 1 { '1' }
    else if d == 2 { '2' }
    else if d == 3 { '3' }
    else if d == 4 { '4' }
    else if d == 5 { '5' }
    else if d == 6 { '6' }
    else if d == 7 { '7' }
    else if d == 8 { '8' }
    else { '9' }
}

/// Appends `n` in decimal.
pub fn push_decimal(out: &mut String, n: u64)
    ensures
        final(out)@ == old(out)@ + decimal(n as nat),
    decreases n,
{
    if n >= 10 {
        push_decimal(out, n / 10);
    }
    push_char(out, digit_of(n % 10));
    proof {
        if n >= 10 {
            assert(old(out)@ + decimal(n as nat) =~= old(out)@ + decimal((n / 10) as nat) + seq![
                digit_char((n % 10) as int),
            ]);
        } else {
            assert(old(out)@ + decimal(n as nat) =~= old(out)@ + seq![digit_char((n % 10) as int)]);
        }
    }
}

/// Appends `n` spaces.
pub fn push_spaces(out: &mut String, n: usize)
    ensures
        final(out)@ == old(out)@ + Seq::new(n as nat, |i: int| ' '),
{
    let mut k: usize = 0;
    while k < n
        invariant
            k <= n,
            out@ == old(out)@ + Seq::new(k as nat, |i: int| ' '),
        decreases n - k,
    {
        push_char(out, ' ');
        k = k + 1;
        assert(out@ =~= old(out)@ + Seq::new(k as nat, |i: int| ' '));
    }
}

/// Appends `s`.
pub fn push_str(out: &mut String, s: &str)
    ensures
        final(out)@ == old(out)@ + s@,
{
    let ghost whole = s@;
    let ghost start = out@;
    for c in it: s.chars()
        invariant
            it.seq() == whole,
            out@ == start + whole.take(it.index() as int),
    {
        assert(whole.take(it.index() + 1) =~= whole.take(it.index() as int).push(c));
        push_char(out, c);
    }
    assert(whole.take(whole.len() as int) =~= whole);
}

} // verus!

verus! {

/// White space as `char::is_whitespace` defines it (the Unicode `White_Space` property).
pub open spec fn is_ws(c: char) -> bool {
    let u = c as u32;
    ||| 0x09 <= u <= 0x0d
    ||| u == 0x20
    ||| u == 0x85
    ||| u == 0xa0
    ||| u == 0x1680
    ||| 0x2000 <= u <= 0x200a
    ||| u == 0x2028
    ||| u == 0x2029
    ||| u == 0x202f
    ||| u == 0x205f
    ||| u == 0x3000
}

pub fn is_whitespace(c: char) -> (b: bool)
    ensures
        b == is_ws(c),
{
    let u = c as u32;
    (0x09 <= u && u <= 0x0d) || u == 0x20 || u == 0x85 || u == 0xa0 || u == 0x1680 || (0x2000 <= u
        && u <= 0x200a) || u == 0x2028 || u == 0x2029 || u == 0x202f || u == 0x205f || u == 0x3000
}

/// `s` without its leading white space.
pub open spec fn trim_front(s: Seq<char>) -> Seq<char>
    decreases s.len(),
{
    if s.len() > 0 && is_ws(s[0]) {
        trim_front(s.drop_first())
    } else {
        s
    }
}

/// `s` without its trailing white space.
pub open spec fn trim_back(s: Seq<char>) -> Seq<char>
    decreases s.len(),
{
    if s.len() > 0 && is_ws(s.last()) {
        trim_back(s.drop_last())
    } else {
        s
    }
}

/// `s` without leading and trailing white space.
pub open spec fn trimmed(s: Seq<char>) -> Seq<char> {
    trim_back(trim_front(s))
}

/// The characters of `s`, one by one.
pub fn chars_of(s: &str) -> (v: Vec<char>)
    ensures
        v@ == s@,
{
    let ghost whole = s@;
    let mut v: Vec<char> = Vec::new();
    for c in it: s.chars()
        invariant
            it.seq() == whole,
            v@ == whole.take(it.index() as int),
    {
        assert(whole.take(it.index() + 1) =~= whole.take(it.index() as int).push(c));
        v.push(c);
    }
    assert(whole.take(whole.len() as int) =~= whole);
    v
}

/// The characters `v[a .. b]` as a `String`.
pub fn string_of(v: &Vec<char>, a: usize, b: usize) -> (s: String)
    requires
        a <= b <= v@.len(),
    ensures
        s@ == v@.subrange(a as int, b as int),
{
    let mut s = String::new();
    let mut i = a;
    while i < b
        invariant
            a <= i <= b <= v@.len(),
            s@ == v@.subrange(a as int, i as int),
        decreases b - i,
    {
        assert(v@.subrange(a as int, i + 1) =~= v@.subrange(a as int, i as int).push(v@[i as int]));
        push_char(&mut s, v[i]);
        i = i + 1;
    }
    s
}

/// `s` without leading and trailing white space.
pub fn trim(s: &str) -> (r: String)
    ensures
        r@ == trimmed(s@),
{
    let v = chars_of(s);
    let ghost whole = v@;
    let mut a: usize = 0;
    assert(whole.skip(0) =~= whole);
    while a < v.len() && is_whitespace(v[a])
        invariant
            a <= v@.len(),
            whole == v@,
            trim_front(whole) == trim_front(whole.skip(a as int)),
        decreases v@.len() - a,
    {
        assert(whole.skip(a as int).drop_first() =~= whole.skip(a + 1));
        a = a + 1;
    }
    let ghost front = whole.skip(a as int);
    assert(trim_front(whole) == front);
    let mut b: usize = v.len();
    assert(front =~= whole.subrange(a as int, b as int));
    while b > a && is_whitespace(v[b - 1])
        invariant
            a <= b <= v@.len(),
            whole == v@,
            front == whole.skip(a as int),
            trim_back(front) == trim_back(whole.subrange(a as int, b as int)),
        decreases b - a,
    {
        assert(whole.subrange(a as int, b as int).drop_last() =~= whole.subrange(a as int, b - 1));
        b = b - 1;
    }
    string_of(&v, a, b)
}

/// Length of the run of characters of `s` before its first white space.
pub open spec fn run_len(s: Seq<char>) -> nat
    decreases s.len(),
{
    if s.len() == 0 || is_ws(s[0]) {
        0
    } else {
        1 + run_len(s.drop_first())
    }
}

/// The white-space-separated words of `s`, as `str::split_whitespace` gives them.
pub open spec fn words(s: Seq<char>) -> Seq<Seq<char>>
    decreases s.len(),
{
    if s.len() == 0 {
        Seq::empty()
    } else if is_ws(s[0]) {
        words(s.drop_first())
    } else {
        proof {
            lemma_run_len_bound(s);
        }
        seq![s.take(run_len(s) as int)] + words(s.skip(run_len(s) as int))
    }
}

pub proof fn lemma_run_len_bound(s: Seq<char>)
    ensures
        run_len(s) <= s.len(),
        s.len() > 0 && !is_ws(s[0]) ==> run_len(s) >= 1,
    decreases s.len(),
{
    if s.len() > 0 {
        lemma_run_len_bound(s.drop_first());
    }
}

proof fn lemma_run_len(w: Seq<char>, rest: Seq<char>)
    requires
        forall|k: int| 0 <= k < w.len() ==> !is_ws(#[trigger] w[k]),
        rest.len() == 0 || is_ws(rest[0]),
    ensures
        run_len(w + rest) == w.len(),
        run_len(w + rest) <= (w + rest).len(),
    decreases w.len(),
{
    if w.len() > 0 {
        assert((w + rest).drop_first() =~= w.drop_first() + rest);
        assert(forall|k: int| 0 <= k < w.drop_first().len() ==> w.drop_first()[k] == w[k + 1]);
        lemma_run_len(w.drop_first(), rest);
    } else {
        assert(w + rest =~= rest);
    }
}

/// A word ended by white space or by the end of the text.
proof fn lemma_words_word(w: Seq<char>, rest: Seq<char>)
    requires
        w.len() > 0,
        forall|k: int| 0 <= k < w.len() ==> !is_ws(#[trigger] w[k]),
        rest.len() == 0 || is_ws(rest[0]),
    ensures
        words(w + rest) == seq![w] + words(rest),
{
    lemma_run_len(w, rest);
    assert((w + rest)[0] == w[0]);
    assert((w + rest).take(w.len() as int) =~= w);
    assert((w + rest).skip(w.len() as int) =~= rest);
}

/// The white-space-separated words of `s`.
pub fn split_words(s: &str) -> (r: Vec<String>)
    ensures
        r@.len() == words(s@).len(),
        forall|k: int| 0 <= k < r@.len() ==> (#[trigger] r@[k])@ == words(s@)[k],
{
    let ghost whole = s@;
    let mut out: Vec<String> = Vec::new();
    let mut cur = String::new();
    let ghost done: Seq<Seq<char>> = Seq::empty();
    assert(cur@ + whole.skip(0) =~= whole);
    assert(done + words(whole) =~= words(whole));
    for c in it: s.chars()
        invariant
            it.seq() == whole,
            out@.len() == done.len(),
            forall|k: int| 0 <= k < out@.len() ==> (#[trigger] out@[k])@ == done[k],
            forall|k: int| 0 <= k < cur@.len() ==> !is_ws(#[trigger] cur@[k]),
            done + words(cur@ + whole.skip(it.index() as int)) == words(whole),
    {
        let ghost i = it.index() as int;
        let ghost rest = whole.skip(i);
        assert(rest[0] == c);
        assert(rest.drop_first() =~= whole.skip(i + 1));
        if is_whitespace(c) {
            if !cur.as_str().is_empty() {
                proof {
                    lemma_words_word(cur@, rest);
                    assert(done + words(cur@ + rest) =~= done.push(cur@) + words(rest));
                    assert(Seq::<char>::empty() + whole.skip(i + 1) =~= whole.skip(i + 1));
                }
                out.push(cur);
                proof {
                    done = done.push(cur@);
                }
                cur = String::new();
            } else {
                assert(cur@ + rest =~= rest);
                assert(Seq::<char>::empty() + whole.skip(i + 1) =~= whole.skip(i + 1));
            }
        } else {
            assert(cur@ + rest =~= cur@.push(c) + whole.skip(i + 1));
            push_char(&mut cur, c);
        }
    }
    assert(whole.skip(whole.len() as int) =~= Seq::<char>::empty());
    assert(cur@ + Seq::<char>::empty() =~= cur@);
    if !cur.as_str().is_empty() {
        proof {
            lemma_words_word(cur@, Seq::empty());
            assert(words(Seq::<char>::empty()) =~= Seq::<Seq<char>>::empty());
            assert(done + words(cur@) =~= done.push(cur@));
        }
        out.push(cur);
        proof {
            done = done.push(cur@);
        }
    } else {
        assert(words(Seq::<char>::empty()) =~= Seq::<Seq<char>>::empty());
        assert(done + words(cur@) =~= done);
    }
    out
}

/// Whether `a` holds exactly the characters of `b`.
pub fn same_text(a: &String, b: &str) -> (r: bool)
    ensures
        r == (a@ == b@),
{
    let t = b.to_owned();
    *a == t
}

} // verus!

verus! {

pub open spec fn is_digit(c: char) -> bool {
    48 <= (c as u32) <= 57
}

pub open spec fn all_digits(d: Seq<char>) -> bool {
    forall|k: int| 0 <= k < d.len() ==> is_digit(#[trigger] d[k])
}

/// The number the decimal digits `d` stand for.
pub open spec fn digits_value(d: Seq<char>) -> int
    decreases d.len(),
{
    if d.len() == 0 {
        0
    } else {
        digits_value(d.drop_last()) * 10 + ((d.last() as u32) - 48)
    }
}

/// What `u64::from_str` gives for `s`: an optional `+` and then decimal
/// digits whose value fits in a `u64`.
pub open spec fn parsed_u64(s: Seq<char>) -> Option<u64> {
    let d = if s.len() > 0 && s[0] == '+' { s.drop_first() } else { s };
    if d.len() > 0 && all_digits(d) && digits_value(d) <= u64::MAX {
        Some(digits_value(d) as u64)
    } else {
        None
    }
}

/// What `i32::from_str` gives for `s`: an optional sign and then decimal
/// digits whose signed value fits in an `i32`.
pub open spec fn parsed_i32(s: Seq<char>) -> Option<i32> {
    let signed = s.len() > 0 && (s[0] == '+' || s[0] == '-');
    let d = if signed { s.drop_first() } else { s };
    let v = if s.len() > 0 && s[0] == '-' { -digits_value(d) } else { digits_value(d) };
    if d.len() > 0 && all_digits(d) && i32::MIN <= v <= i32::MAX {
        Some(v as i32)
    } else {
        None
    }
}

proof fn lemma_digits_grow(x: Seq<char>, y: Seq<char>)
    requires
        all_digits(x + y),
    ensures
        digits_value(x + y) >= digits_value(x) >= 0,
    decreases y.len(),
{
    if y.len() == 0 {
        assert(x + y =~= x);
        lemma_digits_nonneg(x);
    } else {
        assert((x + y).drop_last() =~= x + y.drop_last());
        assert((x + y).last() == y.last());
        assert(is_digit((x + y)[(x + y).len() - 1]));
        lemma_digits_grow(x, y.drop_last());
    }
}

proof fn lemma_digits_nonneg(x: Seq<char>)
    requires
        all_digits(x),
    ensures
        digits_value(x) >= 0,
    decreases x.len(),
{
    if x.len() > 0 {
        assert(is_digit(x[x.len() - 1]));
        lemma_digits_nonneg(x.drop_last());
    }
}

/// The value of the digits `v[a ..]` when all are decimal digits, there is at
/// least one and the value is at most `limit`.
fn digits_upto(v: &Vec<char>, a: usize, limit: u64) -> (r: Option<u64>)
    requires
        a <= v@.len(),
        limit >= 9,
    ensures
        r == (if a < v@.len() && all_digits(v@.skip(a as int)) && digits_value(v@.skip(a as int))
            <= limit {
            Some(digits_value(v@.skip(a as int)) as u64)
        } else {
            None
        }),
{
    let ghost d = v@.skip(a as int);
    if a >= v.len() {
        return None;
    }
    let mut acc: u64 = 0;
    let mut i = a;
    assert(v@.subrange(a as int, a as int) =~= Seq::<char>::empty());
    while i < v.len()
        invariant
            a <= i <= v@.len(),
            limit >= 9,
            d == v@.skip(a as int),
            all_digits(v@.subrange(a as int, i as int)),
            acc == digits_value(v@.subrange(a as int, i as int)),
            acc <= limit,
        decreases v@.len() - i,
    {
        let c = v[i];
        let ghost pre = v@.subrange(a as int, i as int);
        let ghost next = v@.subrange(a as int, i + 1);
        assert(next.drop_last() =~= pre);
        assert(next.last() == c);
        let u = c as u32;
        if !(u >= 48 && u <= 57) {
            assert(d[i - a] == c);
            return None;
        }
        let dv = (u - 48) as u64;
        if acc > (limit - dv) / 10 {
            proof {
                assert(acc * 10 + dv > limit) by (nonlinear_arith)
                    requires
                        acc > (limit - dv) / 10,
                        dv <= limit || dv > limit,
                        dv <= 9,
                ;
                if all_digits(d) {
                    assert(d =~= next + v@.skip(i + 1));
                    lemma_digits_grow(next, v@.skip(i + 1));
                }
            }
            return None;
        }
        proof {
            assert(acc * 10 + dv <= limit) by (nonlinear_arith)
                requires
                    acc <= (limit - dv) / 10,
                    dv <= limit,
            ;
        }
        acc = acc * 10 + dv;
        i = i + 1;
    }
    assert(v@.subrange(a as int, v@.len() as int) =~= d);
    Some(acc)
}

/// `s` read as a `u64` the way `u64::from_str` reads it.
pub fn parse_u64(s: &str) -> (r: Option<u64>)
    ensures
        r == parsed_u64(s@),
{
    let v = chars_of(s);
    let a: usize = if v.len() > 0 && v[0] == '+' { 1 } else { 0 };
    assert(v@.skip(a as int) =~= (if s@.len() > 0 && s@[0] == '+' { s@.drop_first() } else { s@ }));
    digits_upto(&v, a, u64::MAX)
}

/// `s` read as an `i32` the way `i32::from_str` reads it.
pub fn parse_i32(s: &str) -> (r: Option<i32>)
    ensures
        r == parsed_i32(s@),
{
    let v = chars_of(s);
    let neg = v.len() > 0 && v[0] == '-';
    let a: usize = if v.len() > 0 && (v[0] == '+' || v[0] == '-') { 1 } else { 0 };
    let ghost d = v@.skip(a as int);
    assert(d =~= (if s@.len() > 0 && (s@[0] == '+' || s@[0] == '-') { s@.drop_first() } else { s@ }));
    let limit: u64 = if neg { 0x8000_0000 } else { 0x7fff_ffff };
    match digits_upto(&v, a, limit) {
        Some(m) => {
            proof {
                lemma_digits_nonneg(d);
            }
            assert(m <= limit);
            assert(neg == (s@.len() > 0 && s@[0] == '-'));
            if neg {
                Some((0 - (m as i64)) as i32)
            } else {
                Some(m as i32)
            }
        },
        None => {
            proof {
                if a < v@.len() && all_digits(d) {
                    lemma_digits_nonneg(d);
                }
            }
            None
        },
    }
}

} // verus!

verus! {

/// The lines of `s`: the pieces between its line feeds.
pub fn split_lines(s: &str) -> (r: Vec<String>)
    ensures
        r@.len() == lines_of(s@).len(),
        forall|k: int| 0 <= k < r@.len() ==> (#[trigger] r@[k])@ == lines_of(s@)[k],
{
    let ghost whole = s@;
    let mut out: Vec<String> = Vec::new();
    let mut cur = String::new();
    proof {
        assert(whole.take(0) =~= Seq::<char>::empty());
        assert(lines_of(Seq::<char>::empty()) =~= seq![Seq::<char>::empty()]);
    }
    for c in it: s.chars()
        invariant
            it.seq() == whole,
            out@.len() + 1 == lines_of(whole.take(it.index() as int)).len(),
            forall|k: int| 0 <= k < out@.len() ==> (#[trigger] out@[k])@ == lines_of(
                whole.take(it.index() as int),
            )[k],
            cur@ == lines_of(whole.take(it.index() as int)).last(),
    {
        let ghost i = it.index() as int;
        let ghost before = whole.take(i);
        assert(whole.take(i + 1) =~= before.push(c));
        proof {
            lemma_lines_push(before, c);
            lemma_lines_of(before);
        }
        if c == '\n' {
            out.push(cur);
            cur = String::new();
        } else {
            push_char(&mut cur, c);
        }
    }
    assert(whole.take(whole.len() as int) =~= whole);
    proof {
        lemma_lines_of(whole);
    }
    out.push(cur);
    out
}

} // verus!

verus! {

/// `s` begins with `p`.
pub open spec fn has_prefix(s: Seq<char>, p: Seq<char>) -> bool {
    p.len() <= s.len() && s.take(p.len() as int) == p
}

/// `s` with `p` taken off its front as many times as it stands there.
pub open spec fn strip_all(s: Seq<char>, p: Seq<char>) -> Seq<char>
    decreases s.len(),
{
    if p.len() > 0 && has_prefix(s, p) {
        strip_all(s.skip(p.len() as int), p)
    } else {
        s
    }
}

fn prefix_at(v: &Vec<char>, a: usize, p: &Vec<char>) -> (b: bool)
    requires
        a <= v@.len(),
    ensures
        b == has_prefix(v@.skip(a as int), p@),
{
    if p.len() > v.len() - a {
        return false;
    }
    let mut i: usize = 0;
    while i < p.len()
        invariant
            i <= p@.len(),
            a + p@.len() <= v@.len() <= usize::MAX,
            forall|k: int| 0 <= k < i ==> v@[a + k] == p@[k],
        decreases p@.len() - i,
    {
        if v[a + i] != p[i] {
            assert(v@.skip(a as int).take(p@.len() as int)[i as int] != p@[i as int]);
            return false;
        }
        i = i + 1;
    }
    assert(v@.skip(a as int).take(p@.len() as int) =~= p@);
    true
}

/// `s` without the prefix `p`, if it has it.
pub fn strip_prefix(s: &str, p: &str) -> (r: Option<String>)
    ensures
        match r {
            Some(t) => has_prefix(s@, p@) && t@ == s@.skip(p@.len() as int),
            None => !has_prefix(s@, p@),
        },
{
    let v = chars_of(s);
    let pv = chars_of(p);
    assert(v@.skip(0) =~= v@);
    if prefix_at(&v, 0, &pv) {
        let t = string_of(&v, pv.len(), v.len());
        assert(t@ =~= s@.skip(p@.len() as int));
        Some(t)
    } else {
        None
    }
}

/// `s` with every leading repetition of `p` taken off, as `str::trim_start_matches` does.
pub fn strip_all_prefix(s: &str, p: &str) -> (r: String)
    ensures
        r@ == strip_all(s@, p@),
{
    let v = chars_of(s);
    let pv = chars_of(p);
    if pv.len() == 0 {
        return string_of(&v, 0, v.len());
    }
    let mut a: usize = 0;
    let _len = v.len();
    assert(v@.skip(0) =~= v@);
    while prefix_at(&v, a, &pv)
        invariant
            a <= v@.len() <= usize::MAX,
            pv@.len() > 0,
            strip_all(v@.skip(a as int), pv@) == strip_all(v@, pv@),
            v@ == s@,
            pv@ == p@,
        decreases v@.len() - a,
    {
        assert(v@.skip(a as int).skip(pv@.len() as int) =~= v@.skip(a + pv@.len()));
        a = a + pv.len();
    }
    let r = string_of(&v, a, v.len());
    assert(r@ =~= v@.skip(a as int));
    r
}

} // verus!

verus! {

/// `v` in decimal, with a leading `-` when negative.
pub open spec fn int_text(v: int) -> Seq<char> {
    if v < 0 {
        seq!['-'] + decimal((-v) as nat)
    } else {
        decimal(v as nat)
    }
}

/// Appends `v` in decimal.
pub fn push_i32(out: &mut String, v: i32)
    ensures
        final(out)@ == old(out)@ + int_text(v as int),
{
    if v < 0 {
        push_char(out, '-');
        let m = (0 - (v as i64)) as u64;
        push_decimal(out, m);
        assert(final(out)@ =~= old(out)@ + int_text(v as int));
    } else {
        push_decimal(out, v as u64);
    }
}

/// `true` or `false`.
pub open spec fn bool_text(b: bool) -> Seq<char> {
    if b {
        "true"@
    } else {
        "false"@
    }
}

/// The numbers of `s` as a list: `[1, -2, 3]`.
pub open spec fn i32_list(s: Seq<i32>) -> Seq<char> {
    seq!['['] + i32_items(s) + seq![']']
}

pub open spec fn i32_items(s: Seq<i32>) -> Seq<char>
    decreases s.len(),
{
    if s.len() == 0 {
        Seq::empty()
    } else if s.len() == 1 {
        int_text(s[0] as int)
    } else {
        i32_items(s.drop_last()) + seq![',', ' '] + int_text(s.last() as int)
    }
}

/// Appends the numbers of `v` as a list: `[1, -2, 3]`.
pub fn push_i32_list(out: &mut String, v: &Vec<i32>)
    ensures
        final(out)@ == old(out)@ + i32_list(v@),
{
    let ghost start = out@;
    push_char(out, '[');
    let mut i: usize = 0;
    assert(v@.take(0) =~= Seq::<i32>::empty());
    while i < v.len()
        invariant
            i <= v@.len(),
            out@ == start + seq!['['] + i32_items(v@.take(i as int)),
        decreases v@.len() - i,
    {
        assert(v@.take(i + 1).drop_last() =~= v@.take(i as int));
        if i > 0 {
            push_char(out, ',');
            push_char(out, ' ');
        }
        push_i32(out, v[i]);
        assert(out@ =~= start + seq!['['] + i32_items(v@.take(i + 1)));
        i = i + 1;
    }
    assert(v@.take(v@.len() as int) =~= v@);
    push_char(out, ']');
    assert(out@ =~= start + i32_list(v@));
}

} // verus!

verus! {

/// `ss` joined with commas.
pub open spec fn comma_joined(ss: Seq<Seq<char>>) -> Seq<char>
    decreases ss.len(),
{
    if ss.len() == 0 {
        Seq::empty()
    } else if ss.len() == 1 {
        ss[0]
    } else {
        comma_joined(ss.drop_last()) + seq![','] + ss.last()
    }
}

} // verus!
