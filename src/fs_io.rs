use vstd::prelude::*;
use crate::strings::push_char;

verus! {

/// `s` with every `"\r\n"` turned into `"\n"` and then every remaining `'\r'`
/// turned into `'\n'`.
pub open spec fn normalized(s: Seq<char>) -> Seq<char>
    decreases s.len(),
{
    if s.len() == 0 {
        Seq::empty()
    } else if s[0] == '\r' && s.len() >= 2 && s[1] == '\n' {
        seq!['\n'] + normalized(s.skip(2))
    } else if s[0] == '\r' {
        seq!['\n'] + normalized(s.skip(1))
    } else {
        seq![s[0]] + normalized(s.skip(1))
    }
}

/// Turns the line endings `"\r\n"` and `"\r"` into `"\n"`.
pub fn normalize_newlines(s: &str) -> (r: String)
    ensures
        r@ == normalized(s@),
{
    let ghost whole = s@;
    let mut out = String::new();
    let mut pending_cr = false;
    assert(whole.skip(0) =~= whole);
    assert(out@ + normalized(whole) =~= normalized(whole));
    for c in it: s.chars()
        invariant
            it.seq() == whole,
            0 <= it.index() <= whole.len(),
            pending_cr ==> it.index() > 0 && whole[it.index() - 1] == '\r',
            out@ + (if pending_cr {
                normalized(whole.skip(it.index() - 1))
            } else {
                normalized(whole.skip(it.index() as int))
            }) == normalized(whole),
    {
        let ghost i = it.index() as int;
        assert(whole[i] == c);
        let ghost rest = whole.skip(i);
        assert(rest[0] == c);
        assert(rest.skip(1) =~= whole.skip(i + 1));
        if pending_cr {
            let ghost prev = whole.skip(i - 1);
            assert(prev[0] == '\r' && prev[1] == c);
            assert(prev.skip(1) =~= rest);
            assert(prev.skip(2) =~= whole.skip(i + 1));
            if c == '\n' {
                assert(out@.push('\n') + normalized(whole.skip(i + 1)) =~= out@ + normalized(prev));
                push_char(&mut out, '\n');
                pending_cr = false;
            } else {
                assert(out@.push('\n') + normalized(rest) =~= out@ + normalized(prev));
                push_char(&mut out, '\n');
                if c == '\r' {
                    pending_cr = true;
                } else {
                    assert(out@.push(c) + normalized(whole.skip(i + 1)) =~= out@ + normalized(rest));
                    push_char(&mut out, c);
                    pending_cr = false;
                }
            }
        } else if c == '\r' {
            pending_cr = true;
        } else {
            assert(out@.push(c) + normalized(whole.skip(i + 1)) =~= out@ + normalized(rest));
            push_char(&mut out, c);
        }
    }
    if pending_cr {
        let ghost last = whole.skip(whole.len() - 1);
        assert(last.len() == 1);
        assert(last[0] == '\r');
        assert(normalized(Seq::<char>::empty()) =~= Seq::<char>::empty());
        assert(last.skip(1) =~= Seq::<char>::empty());
        assert(out@.push('\n') =~= out@ + normalized(last));
        push_char(&mut out, '\n');
    } else {
        assert(whole.skip(whole.len() as int) =~= Seq::<char>::empty());
        assert(out@ + normalized(Seq::<char>::empty()) =~= out@);
    }
    out
}

/// The empty text has nothing to normalize.
pub proof fn lemma_normalized_empty()
    ensures
        normalized(Seq::<char>::empty()) == Seq::<char>::empty(),
{
}

} // verus!
