use vstd::prelude::*;

verus! {

/// `s` holds no line feed.
pub open spec fn no_newline(s: Seq<char>) -> bool {
    forall|k: int| 0 <= k < s.len() ==> s[k] != '\n'
}

/// Every line of `ls` is free of line feeds.
pub open spec fn all_plain(ls: Seq<Seq<char>>) -> bool {
    forall|k: int| 0 <= k < ls.len() ==> no_newline(#[trigger] ls[k])
}

/// The lines of `s`: the pieces between its line feeds. A text with `n` line
/// feeds has `n + 1` lines; the empty text is one empty line.
pub open spec fn lines_of(s: Seq<char>) -> Seq<Seq<char>>
    decreases s.len(),
{
    if s.len() == 0 {
        seq![Seq::empty()]
    } else {
        let rest = lines_of(s.drop_first());
        if s[0] == '\n' {
            seq![Seq::empty()] + rest
        } else {
            rest.update(0, seq![s[0]] + rest[0])
        }
    }
}

/// The lines of `ls` with a line feed between each two of them.
pub open spec fn join_lines(ls: Seq<Seq<char>>) -> Seq<char>
    decreases ls.len(),
{
    if ls.len() == 0 {
        Seq::empty()
    } else if ls.len() == 1 {
        ls[0]
    } else {
        ls[0] + seq!['\n'] + join_lines(ls.drop_first())
    }
}

/// Index of the first character of line `i` in `join_lines(ls)`.
pub open spec fn line_start(ls: Seq<Seq<char>>, i: int) -> int {
    if i <= 0 {
        0
    } else {
        join_lines(ls.take(i)).len() + 1int
    }
}

/// Splitting a text into lines and joining them again gives the text back.
pub proof fn lemma_lines_of(s: Seq<char>)
    ensures
        1 <= lines_of(s).len() <= s.len() + 1,
        all_plain(lines_of(s)),
        join_lines(lines_of(s)) == s,
    decreases s.len(),
{
    if s.len() > 0 {
        let rest = lines_of(s.drop_first());
        lemma_lines_of(s.drop_first());
        let ls = lines_of(s);
        if s[0] == '\n' {
            assert(ls.drop_first() =~= rest);
            assert(ls[0] =~= Seq::<char>::empty());
            assert(join_lines(ls) =~= s);
            assert forall|k: int| 0 <= k < ls.len() implies no_newline(#[trigger] ls[k]) by {
                if k > 0 {
                    assert(ls[k] == rest[k - 1]);
                }
            }
        } else {
            assert(ls[0] == seq![s[0]] + rest[0]);
            assert(s =~= seq![s[0]] + s.drop_first());
            if rest.len() == 1 {
                assert(join_lines(rest) == rest[0]);
                assert(ls.len() == 1);
                assert(join_lines(ls) == ls[0]);
                assert(join_lines(ls) =~= s);
            } else {
                assert(ls.drop_first() =~= rest.drop_first());
                assert(join_lines(ls) =~= s);
            }
            assert forall|k: int| 0 <= k < ls.len() implies no_newline(#[trigger] ls[k]) by {
                if k == 0 {
                    assert(no_newline(rest[0]));
                    assert forall|j: int| 0 <= j < ls[0].len() implies ls[0][j] != '\n' by {
                        if j > 0 {
                            assert(ls[0][j] == rest[0][j - 1]);
                        }
                    }
                }
            }
        }
    }
}

/// A line-feed-free prefix joins the first line.
proof fn lemma_lines_of_prefix(x: Seq<char>, y: Seq<char>)
    requires
        no_newline(x),
    ensures
        lines_of(x + y) == lines_of(y).update(0, x + lines_of(y)[0]),
    decreases x.len(),
{
    lemma_lines_of(y);
    if x.len() == 0 {
        assert(x + y =~= y);
        assert(lines_of(y).update(0, x + lines_of(y)[0]) =~= lines_of(y));
    } else {
        let x1 = x.drop_first();
        assert(no_newline(x1));
        lemma_lines_of_prefix(x1, y);
        assert((x + y).drop_first() =~= x1 + y);
        assert((x + y)[0] == x[0]);
        let r = lines_of(x1 + y);
        assert(seq![x[0]] + (x1 + lines_of(y)[0]) =~= x + lines_of(y)[0]);
        assert(lines_of(x + y) =~= lines_of(y).update(0, x + lines_of(y)[0]));
    }
}

/// Joining line-feed-free lines and splitting the result gives the lines back.
pub proof fn lemma_join_lines(ls: Seq<Seq<char>>)
    requires
        ls.len() >= 1,
        all_plain(ls),
    ensures
        lines_of(join_lines(ls)) == ls,
    decreases ls.len(),
{
    assert(no_newline(ls[0]));
    if ls.len() == 1 {
        lemma_lines_of_prefix(ls[0], Seq::empty());
        assert(ls[0] + Seq::<char>::empty() =~= ls[0]);
        assert(lines_of(Seq::<char>::empty()).update(0, ls[0] + Seq::<char>::empty()) =~= ls);
    } else {
        let rest = ls.drop_first();
        assert forall|k: int| 0 <= k < rest.len() implies no_newline(#[trigger] rest[k]) by {
            assert(rest[k] == ls[k + 1]);
        }
        lemma_join_lines(rest);
        let y = seq!['\n'] + join_lines(rest);
        assert(join_lines(ls) =~= ls[0] + y);
        lemma_lines_of_prefix(ls[0], y);
        assert(y.drop_first() =~= join_lines(rest));
        assert(lines_of(y) =~= seq![Seq::<char>::empty()] + rest);
        assert(ls[0] + Seq::<char>::empty() =~= ls[0]);
        assert(lines_of(y).update(0, ls[0] + lines_of(y)[0]) =~= ls);
    }
}

/// Joining two non-empty runs of lines puts one line feed between them.
pub proof fn lemma_join_append(a: Seq<Seq<char>>, b: Seq<Seq<char>>)
    requires
        a.len() >= 1,
        b.len() >= 1,
    ensures
        join_lines(a + b) == join_lines(a) + seq!['\n'] + join_lines(b),
    decreases a.len(),
{
    if a.len() == 1 {
        assert((a + b).drop_first() =~= b);
        assert((a + b)[0] == a[0]);
    } else {
        lemma_join_append(a.drop_first(), b);
        assert((a + b).drop_first() =~= a.drop_first() + b);
        assert((a + b)[0] == a[0]);
        assert(join_lines(a + b) =~= join_lines(a) + seq!['\n'] + join_lines(b));
    }
}

/// Where line `i` lies in the joined text.
pub proof fn lemma_line_place(ls: Seq<Seq<char>>, i: int)
    requires
        0 <= i < ls.len(),
    ensures
        join_lines(ls.take(i + 1)).len() == line_start(ls, i) + ls[i].len(),
        line_start(ls, i + 1) == line_start(ls, i) + ls[i].len() + 1,
        line_start(ls, i) + ls[i].len() <= join_lines(ls).len(),
        join_lines(ls).subrange(line_start(ls, i), line_start(ls, i) + ls[i].len()) == ls[i],
        i + 1 < ls.len() ==> join_lines(ls)[line_start(ls, i) + ls[i].len()] == '\n',
        i + 1 == ls.len() ==> join_lines(ls).len() == line_start(ls, i) + ls[i].len(),
{
    let t = join_lines(ls);
    let a = ls.take(i);
    let p = ls.take(i + 1);
    if i == 0 {
        assert(p =~= seq![ls[0]]);
    } else {
        assert(p =~= a + seq![ls[i]]);
        lemma_join_append(a, seq![ls[i]]);
    }
    let e = line_start(ls, i) + ls[i].len();
    if i + 1 < ls.len() {
        assert(ls =~= p + ls.skip(i + 1));
        lemma_join_append(p, ls.skip(i + 1));
        assert(t.subrange(line_start(ls, i), e) =~= ls[i]);
    } else {
        assert(ls =~= p);
        assert(t.subrange(line_start(ls, i), e) =~= ls[i]);
    }
}

/// Replacing lines `i .. j` of `ls` by the lines `m` replaces the matching
/// stretch of the joined text by `join_lines(m)`.
pub proof fn lemma_join_replace(ls: Seq<Seq<char>>, i: int, j: int, m: Seq<Seq<char>>)
    requires
        0 <= i < j <= ls.len(),
        m.len() >= 1,
    ensures
        join_lines(ls.take(i) + m + ls.skip(j)) == join_lines(ls).take(line_start(ls, i))
            + join_lines(m) + join_lines(ls).skip(join_lines(ls.take(j)).len() as int),
{
    let t = join_lines(ls);
    let a = ls.take(i);
    let b = ls.subrange(i, j);
    let c = ls.skip(j);
    let n = ls.len();
    let end = join_lines(ls.take(j)).len() as int;
    if i > 0 {
        assert(ls.take(j) =~= a + b);
        lemma_join_append(a, b);
    } else {
        assert(ls.take(j) =~= b);
    }
    if j < n {
        assert(ls =~= ls.take(j) + c);
        lemma_join_append(ls.take(j), c);
    } else {
        assert(ls =~= ls.take(j));
    }
    if i > 0 && j < n {
        assert(a + m + c =~= a + (m + c));
        lemma_join_append(m, c);
        lemma_join_append(a, m + c);
        assert(join_lines(ls.take(i) + m + ls.skip(j)) =~= t.take(line_start(ls, i)) + join_lines(m)
            + t.skip(end));
    } else if i > 0 {
        assert(a + m + c =~= a + m);
        lemma_join_append(a, m);
        assert(join_lines(ls.take(i) + m + ls.skip(j)) =~= t.take(line_start(ls, i)) + join_lines(m)
            + t.skip(end));
    } else if j < n {
        assert(a + m + c =~= m + c);
        lemma_join_append(m, c);
        assert(join_lines(ls.take(i) + m + ls.skip(j)) =~= t.take(line_start(ls, i)) + join_lines(m)
            + t.skip(end));
    } else {
        assert(a + m + c =~= m);
        assert(join_lines(ls.take(i) + m + ls.skip(j)) =~= t.take(line_start(ls, i)) + join_lines(m)
            + t.skip(end));
    }
}

/// Editing a text inside lines `i .. j` so that those lines become `m` leaves
/// the other lines as they were.
pub proof fn lemma_edit_lines(s: Seq<char>, i: int, j: int, m: Seq<Seq<char>>)
    requires
        0 <= i < j <= lines_of(s).len(),
        m.len() >= 1,
        all_plain(m),
    ensures
        lines_of(
            s.take(line_start(lines_of(s), i)) + join_lines(m) + s.skip(
                join_lines(lines_of(s).take(j)).len() as int,
            ),
        ) == lines_of(s).take(i) + m + lines_of(s).skip(j),
{
    let ls = lines_of(s);
    lemma_lines_of(s);
    lemma_join_replace(ls, i, j, m);
    let nl = ls.take(i) + m + ls.skip(j);
    assert forall|k: int| 0 <= k < nl.len() implies no_newline(#[trigger] nl[k]) by {
        if k < i {
            assert(nl[k] == ls[k]);
        } else if k < i + m.len() {
            assert(nl[k] == m[k - i]);
        } else {
            assert(nl[k] == ls[k - i - m.len() + j]);
        }
    }
    lemma_join_lines(nl);
}

/// How the lines of a text grow by one character at its end.
pub proof fn lemma_lines_push(x: Seq<char>, c: char)
    ensures
        c == '\n' ==> lines_of(x.push(c)) == lines_of(x).push(Seq::empty()),
        c != '\n' ==> lines_of(x.push(c)) == lines_of(x).update(
            lines_of(x).len() - 1,
            lines_of(x).last().push(c),
        ),
{
    let ls = lines_of(x);
    lemma_lines_of(x);
    let n = ls.len();
    if c == '\n' {
        let nl = ls.push(Seq::empty());
        lemma_join_append(ls, seq![Seq::<char>::empty()]);
        assert(ls + seq![Seq::<char>::empty()] =~= nl);
        assert(join_lines(seq![Seq::<char>::empty()]) == Seq::<char>::empty());
        assert(join_lines(nl) =~= x.push(c));
        assert forall|k: int| 0 <= k < nl.len() implies no_newline(#[trigger] nl[k]) by {
            if k < n {
                assert(nl[k] == ls[k]);
            }
        }
        lemma_join_lines(nl);
    } else {
        let last = ls.last().push(c);
        let nl = ls.update(n - 1, last);
        assert(no_newline(ls[n - 1]));
        assert forall|k: int| 0 <= k < nl.len() implies no_newline(#[trigger] nl[k]) by {
            if k < n - 1 {
                assert(nl[k] == ls[k]);
            } else {
                assert forall|j: int| 0 <= j < last.len() implies last[j] != '\n' by {
                    if j < last.len() - 1 {
                        assert(last[j] == ls[n - 1][j]);
                    }
                }
            }
        }
        if n == 1 {
            assert(join_lines(nl) == last);
            assert(join_lines(ls) == ls[0]);
            assert(join_lines(nl) =~= x.push(c));
        } else {
            let front = ls.take(n - 1);
            assert(ls =~= front + seq![ls[n - 1]]);
            assert(nl =~= front + seq![last]);
            lemma_join_append(front, seq![ls[n - 1]]);
            lemma_join_append(front, seq![last]);
            assert(join_lines(seq![ls[n - 1]]) == ls[n - 1]);
            assert(join_lines(seq![last]) == last);
            assert(join_lines(nl) =~= x.push(c));
        }
        lemma_join_lines(nl);
    }
}

} // verus!
