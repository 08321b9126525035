use vstd::prelude::*;
use unicode_width::UnicodeWidthChar;
use crate::buffer::Buffer;
use crate::strings::{decimal, push_char, push_decimal, push_spaces, push_str};

verus! {

/// What `unicode_width` reports as the column width of `c`.
pub uninterp spec fn char_columns(c: char) -> Option<usize>;

/// Relies on `unicode_width::UnicodeWidthChar::width`: `None` for control
/// characters, one column for printable ASCII, at most three columns otherwise.
#[verifier::external_body]
fn unicode_char_width(c: char) -> (r: Option<usize>)
    ensures
        r == char_columns(c),
        0x20 <= (c as u32) < 0x7f ==> r == Some(1usize),
        (c as u32) < 0x20 || 0x7f <= (c as u32) < 0xa0 ==> r is None,
        r matches Some(w) ==> w <= 3,
{
    UnicodeWidthChar::width(c)
}

/// Terminal cells for a character of width `w` as `unicode_width` gives it: unknown and
/// zero widths count as one cell.
pub open spec fn cells_for(w: Option<usize>) -> int {
    match w {
        Some(n) => if n == 0 { 1 } else { n as int },
        None => 1,
    }
}

/// Terminal cells taken by `c`.
pub open spec fn cell_w(c: char) -> int {
    cells_for(char_columns(c))
}

/// The cell width of each character of `s`.
pub open spec fn widths_of(s: Seq<char>) -> Seq<int> {
    Seq::new(s.len(), |i: int| cell_w(s[i]))
}

/// The sum of `ws`.
pub open spec fn sum(ws: Seq<int>) -> int
    decreases ws.len(),
{
    if ws.len() == 0 {
        0
    } else {
        ws[0] + sum(ws.drop_first())
    }
}

/// Terminal cells taken by `s`.
pub open spec fn cells(s: Seq<char>) -> int {
    sum(widths_of(s))
}

/// The characters of `s` (the first at cell `pos`, each `ws[i]` cells wide)
/// whose cells all lie in `[left, left + window)`.
pub open spec fn visible(s: Seq<char>, ws: Seq<int>, pos: int, left: int, window: int) -> Seq<char>
    decreases s.len(),
{
    if s.len() == 0 {
        Seq::empty()
    } else {
        let w = ws[0];
        let rest = visible(s.drop_first(), ws.drop_first(), pos + w, left, window);
        if left <= pos && pos + w <= left + window {
            seq![s[0]] + rest
        } else {
            rest
        }
    }
}

/// Cells for a character of width `w` as `unicode_width` gives it.
pub fn cell_width_for(w: Option<usize>) -> (r: usize)
    requires
        w matches Some(n) ==> n <= 3,
    ensures
        r == cells_for(w),
        1 <= r <= 3,
{
    match w {
        Some(n) => if n == 0 { 1 } else { n },
        None => 1,
    }
}

/// Terminal cells taken by `ch`: its Unicode width, with unknown and zero
/// widths counted as one.
pub fn cell_width(ch: char) -> (r: usize)
    ensures
        r == cell_w(ch),
        1 <= r <= 3,
        0x20 <= (ch as u32) < 0x7f ==> r == 1,
{
    cell_width_for(unicode_char_width(ch))
}

proof fn lemma_sum_step(ws: Seq<int>, i: int)
    requires
        0 <= i < ws.len(),
    ensures
        sum(ws.skip(i)) == ws[i] + sum(ws.skip(i + 1)),
{
    assert(ws.skip(i).drop_first() =~= ws.skip(i + 1));
}

/// Cells taken by the first `chars` characters of `s` (all of them when it
/// has fewer), saturating at `usize::MAX`.
pub fn prefix_cells(s: &str, chars: usize) -> (r: usize)
    ensures
        r == (if cells(s@.take(if chars <= s@.len() { chars as int } else { s@.len() as int }))
            <= usize::MAX {
            cells(s@.take(if chars <= s@.len() { chars as int } else { s@.len() as int }))
        } else {
            usize::MAX as int
        }),
{
    let ghost whole = s@;
    let ghost k = if chars <= whole.len() { chars as int } else { whole.len() as int };
    let ghost ws = widths_of(whole.take(k));
    let mut total: usize = 0;
    let ghost mut acc: int = 0;
    let mut i: usize = 0;
    assert(ws.skip(0) =~= ws);
    for ch in it: s.chars()
        invariant
            it.seq() == whole,
            i == (if it.index() <= k { it.index() as int } else { k }),
            k == (if chars <= whole.len() { chars as int } else { whole.len() as int }),
            ws == widths_of(whole.take(k)),
            k <= chars,
            acc + sum(ws.skip(i as int)) == sum(ws),
            acc >= 0,
            total == (if acc <= usize::MAX { acc } else { usize::MAX as int }),
            forall|j: int| 0 <= j < ws.len() ==> ws[j] >= 1,
    {
        assert(it.index() < whole.len());
        assert(ch == whole[it.index() as int]);
        if i < chars {
            let w = cell_width(ch);
            proof {
                assert(i < k);
                assert(whole.take(k)[i as int] == ch);
                assert(ws[i as int] == cell_w(ch));
                lemma_sum_step(ws, i as int);
                acc = acc + w;
            }
            if total > usize::MAX - w {
                total = usize::MAX;
            } else {
                total = total + w;
            }
            i = i + 1;
        }
    }
    assert(ws.skip(k) =~= Seq::<int>::empty());
    total
}

proof fn lemma_sum_nonneg(ws: Seq<int>)
    requires
        forall|j: int| 0 <= j < ws.len() ==> ws[j] >= 1,
    ensures
        sum(ws) >= 0,
    decreases ws.len(),
{
    if ws.len() > 0 {
        lemma_sum_nonneg(ws.drop_first());
    }
}

/// One step of `visible` from index `i` on.
proof fn lemma_visible_step(s: Seq<char>, ws: Seq<int>, i: int, pos: int, left: int, window: int)
    requires
        0 <= i < s.len(),
        ws.len() == s.len(),
    ensures
        visible(s.skip(i), ws.skip(i), pos, left, window) == (if left <= pos && pos + ws[i] <= left
            + window {
            seq![s[i]]
        } else {
            Seq::empty()
        }) + visible(s.skip(i + 1), ws.skip(i + 1), pos + ws[i], left, window),
{
    assert(s.skip(i).drop_first() =~= s.skip(i + 1));
    assert(ws.skip(i).drop_first() =~= ws.skip(i + 1));
    let rest = visible(s.skip(i + 1), ws.skip(i + 1), pos + ws[i], left, window);
    assert(Seq::<char>::empty() + rest =~= rest);
}

/// No character starting at or past the window's right edge is visible.
proof fn lemma_visible_past(s: Seq<char>, ws: Seq<int>, pos: int, left: int, window: int)
    requires
        ws.len() == s.len(),
        forall|j: int| 0 <= j < ws.len() ==> ws[j] >= 1,
        pos >= left + window,
    ensures
        visible(s, ws, pos, left, window) == Seq::<char>::empty(),
    decreases s.len(),
{
    if s.len() > 0 {
        let rest = ws.drop_first();
        assert forall|j: int| 0 <= j < rest.len() implies #[trigger] rest[j] >= 1 by {
            assert(rest[j] == ws[j + 1]);
        }
        lemma_visible_past(s.drop_first(), rest, pos + ws[0], left, window);
    }
}

/// The visible characters take at most the window's cells, and no more than
/// remain right of `pos`.
proof fn lemma_visible_cells(s: Seq<char>, pos: int, left: int, window: int)
    requires
        window >= 0,
    ensures
        cells(visible(s, widths_of(s), pos, left, window)) <= window,
        pos >= left ==> cells(visible(s, widths_of(s), pos, left, window)) <= (if pos <= left
            + window {
            left + window - pos
        } else {
            0
        }),
    decreases s.len(),
{
    let v = visible(s, widths_of(s), pos, left, window);
    if s.len() == 0 {
        assert(widths_of(v) =~= Seq::<int>::empty());
    } else {
        let t = s.drop_first();
        let w = cell_w(s[0]);
        assert(widths_of(s).drop_first() =~= widths_of(t));
        lemma_visible_cells(t, pos + w, left, window);
        let r = visible(t, widths_of(t), pos + w, left, window);
        if left <= pos && pos + w <= left + window {
            assert(v == seq![s[0]] + r);
            assert(widths_of(v).drop_first() =~= widths_of(r));
        }
    }
}

/// The characters of `s` whose cells, as given by `widths`, lie entirely in
/// `[left, left + window)`. A character cut by either edge is left out.
pub fn slice_by_widths(s: &str, widths: &[usize], left: usize, window: usize) -> (r: String)
    requires
        widths@.len() == s@.len(),
        forall|j: int| 0 <= j < widths@.len() ==> widths@[j] >= 1,
    ensures
        r@ == visible(s@, widths@.map_values(|w: usize| w as int), 0, left as int, window as int),
{
    let ghost whole = s@;
    let ghost ws = widths@.map_values(|w: usize| w as int);
    let ghost target = visible(whole, ws, 0, left as int, window as int);
    let mut out = String::new();
    let mut pos: usize = 0;
    let mut used: usize = 0;
    let mut inside = false;
    let mut done = false;
    let mut i: usize = 0;
    assert(whole.skip(0) =~= whole);
    assert(ws.skip(0) =~= ws);
    assert(out@ + target =~= target);
    for ch in it: s.chars()
        invariant
            it.seq() == whole,
            i == it.index(),
            widths@.len() == whole.len(),
            ws == widths@.map_values(|w: usize| w as int),
            forall|j: int| 0 <= j < ws.len() ==> ws[j] >= 1,
            target == visible(whole, ws, 0, left as int, window as int),
            !inside ==> pos <= left,
            done ==> out@ == target,
            !done ==> out@ + visible(
                whole.skip(i as int),
                ws.skip(i as int),
                if inside { left + used } else { pos as int },
                left as int,
                window as int,
            ) == target,
    {
        assert(it.index() < whole.len());
        assert(ch == whole[i as int]);
        let w = widths[i];
        assert(ws[i as int] == w);
        let ghost cur: int = if inside { left + used } else { pos as int };
        if !done {
            proof {
                lemma_visible_step(whole, ws, i as int, cur, left as int, window as int);
            }
            let mut handled = false;
            if !inside {
                if w <= left - pos {
                    pos = pos + w;
                    handled = true;
                } else if pos < left {
                    inside = true;
                    used = w - (left - pos);
                    handled = true;
                } else {
                    inside = true;
                    used = 0;
                }
            }
            if !handled {
                if used <= window && w <= window - used {
                    push_char(&mut out, ch);
                    used = used + w;
                } else {
                    proof {
                        let rest_s = whole.skip(i + 1);
                        let rest_w = ws.skip(i + 1);
                        assert forall|j: int| 0 <= j < rest_w.len() implies #[trigger] rest_w[j]
                            >= 1 by {
                            assert(rest_w[j] == ws[i + 1 + j]);
                        }
                        lemma_visible_past(rest_s, rest_w, cur + w, left as int, window as int);
                        assert(out@ + Seq::<char>::empty() =~= out@);
                    }
                    done = true;
                }
            }
        }
        i = i + 1;
    }
    proof {
        if !done {
            assert(whole.skip(i as int) =~= Seq::<char>::empty());
            assert(out@ + Seq::<char>::empty() =~= out@);
        }
    }
    out
}

/// The characters of `s` whose display cells lie entirely in
/// `[left_cells, left_cells + width_cells)`.
pub fn slice_by_cells(s: &str, left_cells: usize, width_cells: usize) -> (r: String)
    ensures
        r@ == visible(s@, widths_of(s@), 0, left_cells as int, width_cells as int),
        cells(r@) <= width_cells,
{
    let ghost whole = s@;
    let mut widths: Vec<usize> = Vec::new();
    for ch in it: s.chars()
        invariant
            it.seq() == whole,
            widths@.len() == it.index(),
            forall|j: int| 0 <= j < widths@.len() ==> widths@[j] as int == cell_w(whole[j]) && widths@[j]
                >= 1,
    {
        assert(ch == whole[it.index() as int]);
        let w = cell_width(ch);
        widths.push(w);
    }
    proof {
        assert(widths@.map_values(|w: usize| w as int) =~= widths_of(whole));
        lemma_visible_cells(whole, 0, left_cells as int, width_cells as int);
    }
    slice_by_widths(s, widths.as_slice(), left_cells, width_cells)
}

/// Cells of a concatenation add up.
proof fn lemma_cells_concat(a: Seq<char>, b: Seq<char>)
    ensures
        cells(a + b) == cells(a) + cells(b),
    decreases a.len(),
{
    if a.len() == 0 {
        assert(a + b =~= b);
        assert(widths_of(a) =~= Seq::<int>::empty());
    } else {
        lemma_cells_concat(a.drop_first(), b);
        assert((a + b).drop_first() =~= a.drop_first() + b);
        assert(widths_of(a + b).drop_first() =~= widths_of(a.drop_first() + b));
        assert(widths_of(a).drop_first() =~= widths_of(a.drop_first()));
    }
}

/// `n` spaces.
pub open spec fn spaces(n: int) -> Seq<char> {
    Seq::new(n as nat, |i: int| ' ')
}

proof fn lemma_cells_spaces(n: nat)
    requires
        cell_w(' ') == 1,
    ensures
        cells(spaces(n as int)) == n,
    decreases n,
{
    if n > 0 {
        lemma_cells_spaces((n - 1) as nat);
        assert(spaces(n as int) =~= seq![' '] + spaces(n - 1));
        lemma_cells_concat(seq![' '], spaces(n - 1));
        assert(widths_of(seq![' ']).drop_first() =~= Seq::<int>::empty());
        assert(widths_of(seq![' '])[0] == 1);
        assert(sum(Seq::<int>::empty()) == 0);
    } else {
        assert(widths_of(spaces(0)) =~= Seq::<int>::empty());
    }
}

/// The name shown for a buffer without a path.
pub open spec fn no_name() -> Seq<char> {
    seq!['[', 'N', 'o', ' ', 'N', 'a', 'm', 'e', ']']
}

/// The status line's left part: `" {mode}  {name}{marker} "`, the marker being
/// `" [+]"` for a modified buffer.
pub open spec fn status_left(mode: Seq<char>, name: Seq<char>, dirty: bool) -> Seq<char> {
    seq![' '] + mode + seq![' ', ' '] + name + (if dirty {
        seq![' ', '[', '+', ']']
    } else {
        Seq::empty()
    }) + seq![' ']
}

/// The status line's right part: `" {message} "`, or else the one-based
/// position `" {line}:{col} "`.
pub open spec fn status_right(msg: Option<Seq<char>>, line: int, col: int) -> Seq<char> {
    match msg {
        Some(m) => seq![' '] + m + seq![' '],
        None => seq![' '] + decimal((line + 1) as nat) + seq![':'] + decimal((col + 1) as nat)
            + seq![' '],
    }
}

/// The prefix of `s` that fits in `width` cells.
pub open spec fn clip(s: Seq<char>, width: int) -> Seq<char> {
    visible(s, widths_of(s), 0, 0, width)
}

/// Both parts padded apart to `width` cells when they fit; else the right part
/// alone cut to `width` when it takes the whole width; else the left part cut
/// to what the right part leaves, then padded.
pub open spec fn status_text(left: Seq<char>, right: Seq<char>, width: int) -> Seq<char> {
    if width == 0 {
        Seq::empty()
    } else if cells(left) + cells(right) <= width {
        left + spaces(width - cells(left) - cells(right)) + right
    } else if cells(right) >= width {
        clip(right, width)
    } else {
        let lt = clip(left, width - cells(right));
        lt + spaces(width - cells(lt) - cells(right)) + right
    }
}

pub open spec fn name_of(b: &Buffer) -> Seq<char> {
    match b.file_path {
        Some(p) => p@,
        None => no_name(),
    }
}

pub open spec fn msg_view(msg: Option<&str>) -> Option<Seq<char>> {
    match msg {
        Some(m) => Some(m@),
        None => None,
    }
}

/// Cells taken by all of `s`.
fn str_cells(s: &str) -> (r: usize)
    requires
        cells(s@) <= usize::MAX,
    ensures
        r == cells(s@),
{
    let n = s.unicode_len();
    assert(s@.take(n as int) =~= s@);
    prefix_cells(s, n)
}

/// The status line for `buffer` in `mode`, `width` cells wide.
pub fn status_line(buffer: &Buffer, mode: &str, msg: Option<&str>, width: usize) -> (r: String)
    requires
        buffer.cursor.line < usize::MAX,
        buffer.cursor.col < usize::MAX,
        cells(status_left(mode@, name_of(buffer), buffer.dirty)) + cells(
            status_right(msg_view(msg), buffer.cursor.line as int, buffer.cursor.col as int),
        ) <= usize::MAX,
    ensures
        r@ == status_text(
            status_left(mode@, name_of(buffer), buffer.dirty),
            status_right(msg_view(msg), buffer.cursor.line as int, buffer.cursor.col as int),
            width as int,
        ),
        cells(r@) <= width,
        cells(status_right(msg_view(msg), buffer.cursor.line as int, buffer.cursor.col as int))
            < width ==> cells(r@) == width,
{
    let ghost lspec = status_left(mode@, name_of(buffer), buffer.dirty);
    let ghost rspec = status_right(
        msg_view(msg),
        buffer.cursor.line as int,
        buffer.cursor.col as int,
    );
    let mut left = String::new();
    push_char(&mut left, ' ');
    push_str(&mut left, mode);
    push_char(&mut left, ' ');
    push_char(&mut left, ' ');
    match &buffer.file_path {
        Some(p) => push_str(&mut left, p.as_str()),
        None => {
            proof {
                reveal_strlit("[No Name]");
            }
            push_str(&mut left, "[No Name]");
        },
    }
    if buffer.dirty {
        proof {
            reveal_strlit(" [+]");
        }
        push_str(&mut left, " [+]");
    }
    push_char(&mut left, ' ');
    let mut right = String::new();
    push_char(&mut right, ' ');
    match msg {
        Some(m) => push_str(&mut right, m),
        None => {
            push_decimal(&mut right, (buffer.cursor.line + 1) as u64);
            push_char(&mut right, ':');
            push_decimal(&mut right, (buffer.cursor.col + 1) as u64);
        },
    }
    push_char(&mut right, ' ');
    assert(left@ =~= lspec);
    assert(right@ =~= rspec);
    proof {
        lemma_cells_nonneg(left@);
        lemma_cells_nonneg(right@);
    }
    if width == 0 {
        return String::new();
    }
    // a space takes one cell
    let space_cells = cell_width(' ');
    assert((' ' as u32) == 32);
    assert(space_cells == 1);
    let left_cells = str_cells(left.as_str());
    let right_cells = str_cells(right.as_str());
    if left_cells + right_cells <= width {
        let pad = width - left_cells - right_cells;
        let mut out = left;
        push_spaces(&mut out, pad);
        push_str(&mut out, right.as_str());
        proof {
            lemma_cells_spaces(pad as nat);
            lemma_cells_concat(lspec, spaces(pad as int));
            lemma_cells_concat(lspec + spaces(pad as int), rspec);
        }
        return out;
    }
    if right_cells >= width {
        return slice_by_cells(right.as_str(), 0, width);
    }
    let left_allowed = width - right_cells;
    let mut out = slice_by_cells(left.as_str(), 0, left_allowed);
    let ghost lt = out@;
    proof {
        lemma_cells_nonneg(lt);
    }
    let kept = str_cells(out.as_str());
    let pad = width - kept - right_cells;
    push_spaces(&mut out, pad);
    push_str(&mut out, right.as_str());
    proof {
        lemma_cells_spaces(pad as nat);
        lemma_cells_concat(lt, spaces(pad as int));
        lemma_cells_concat(lt + spaces(pad as int), rspec);
    }
    out
}

proof fn lemma_cells_nonneg(s: Seq<char>)
    ensures
        cells(s) >= 0,
    decreases s.len(),
{
    if s.len() > 0 {
        lemma_cells_nonneg(s.drop_first());
        assert(widths_of(s).drop_first() =~= widths_of(s.drop_first()));
    }
}

} // verus!
