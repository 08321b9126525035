use vstd::prelude::*;
use crate::layout::bindings::{binding_text, lex_sorted, TileBindings};
use crate::layout::tree::{describe_spec, leaves_spec, LayoutTree};
use crate::renderer::pipeline::{op_view, RenderOp, RenderOpView};
use crate::strings::{comma_joined, decimal, push_char, push_decimal, push_str};
use crate::tabs::{front_title, title_in, TabManager};

verus! {

/// What a session looks like at one moment, ready to be written out.
#[derive(Debug, Default)]
pub struct SessionSnapshot {
    pub frame: u64,
    pub active_tab_title: String,
    pub layout: String,
    pub active_tile: u64,
    pub tiles: Vec<u64>,
    pub bindings: String,
    pub binding_pairs: Vec<(u64, u64)>,
    pub tile_contexts: Vec<(u64, String)>,
    pub last_render_ops: Vec<String>,
}

/// What `format!("{:?}", s)` gives for a string: it quoted, with escapes.
pub uninterp spec fn debug_quoted(s: Seq<char>) -> Seq<char>;

/// Relies on the `Debug` impl of `str`: the string quoted and escaped.
#[verifier::external_body]
fn quoted(s: &str) -> (r: String)
    ensures
        r@ == debug_quoted(s@),
{
    format!("{:?}", s)
}

/// A drawing step as its derived `Debug` output writes it.
pub open spec fn op_text(op: RenderOpView) -> Seq<char> {
    match op {
        RenderOpView::FrameBegin => "FrameBegin"@,
        RenderOpView::FrameEnd => "FrameEnd"@,
        RenderOpView::Text(s) => "Text("@ + debug_quoted(s) + ")"@,
    }
}

fn describe_op(op: &RenderOp) -> (s: String)
    ensures
        s@ == op_text(op_view(*op)),
{
    match op {
        RenderOp::FrameBegin => "FrameBegin".to_owned(),
        RenderOp::FrameEnd => "FrameEnd".to_owned(),
        RenderOp::Text(t) => {
            let mut s = "Text(".to_owned();
            let q = quoted(t.as_str());
            push_str(&mut s, q.as_str());
            push_str(&mut s, ")");
            s
        },
    }
}

/// The character as it stands inside a JSON string: backslash, quote and line
/// feed get a backslash.
pub open spec fn json_char(c: char) -> Seq<char> {
    if c == '\\' {
        seq!['\\', '\\']
    } else if c == '"' {
        seq!['\\', '"']
    } else if c == '\n' {
        seq!['\\', 'n']
    } else {
        seq![c]
    }
}

pub open spec fn json_escaped(s: Seq<char>) -> Seq<char>
    decreases s.len(),
{
    if s.len() == 0 {
        Seq::empty()
    } else {
        json_escaped(s.drop_last()) + json_char(s.last())
    }
}

fn escape_json(input: &str, out: &mut String)
    ensures
        final(out)@ == old(out)@ + json_escaped(input@),
{
    let ghost whole = input@;
    let ghost start = out@;
    assert(whole.take(0) =~= Seq::<char>::empty());
    for c in it: input.chars()
        invariant
            it.seq() == whole,
            out@ == start + json_escaped(whole.take(it.index() as int)),
    {
        let ghost i = it.index() as int;
        assert(whole.take(i + 1).drop_last() =~= whole.take(i));
        assert(whole.take(i + 1).last() == c);
        if c == '\\' {
            push_char(out, '\\');
            push_char(out, '\\');
        } else if c == '"' {
            push_char(out, '\\');
            push_char(out, '"');
        } else if c == '\n' {
            push_char(out, '\\');
            push_char(out, 'n');
        } else {
            push_char(out, c);
        }
        assert(out@ =~= start + json_escaped(whole.take(i + 1)));
    }
    assert(whole.take(whole.len() as int) =~= whole);
}

/// A tile's context: the title of the tab it shows, or `unknown`.
pub open spec fn context_title(tabs: Seq<(u64, Seq<char>)>, tab: u64) -> Seq<char> {
    match title_in(tabs, tab) {
        Some(t) => t,
        None => "unknown"@,
    }
}

/// Each of `items` in quotes, JSON-escaped.
pub open spec fn quoted_items(items: Seq<String>) -> Seq<Seq<char>> {
    Seq::new(items.len(), |i: int| seq!['"'] + json_escaped(items[i]@) + seq!['"'])
}

pub open spec fn number_items(items: Seq<u64>) -> Seq<Seq<char>> {
    Seq::new(items.len(), |i: int| decimal(items[i] as nat))
}

pub open spec fn pair_items(items: Seq<(u64, u64)>) -> Seq<Seq<char>> {
    Seq::new(
        items.len(),
        |i: int| seq!['['] + decimal(items[i].0 as nat) + seq![','] + decimal(items[i].1 as nat) + seq![']'],
    )
}

pub open spec fn context_items(items: Seq<(u64, String)>) -> Seq<Seq<char>> {
    Seq::new(
        items.len(),
        |i: int| seq!['['] + decimal(items[i].0 as nat) + seq![',', '"'] + json_escaped(items[i].1@) + seq!['"', ']'],
    )
}

/// The snapshot as one JSON object.
pub open spec fn json_of(s: SessionSnapshot) -> Seq<char> {
    "{\"frame\":"@ + decimal(s.frame as nat) + ",\"active_tab\":\""@ + json_escaped(s.active_tab_title@)
        + "\",\"layout\":\""@ + json_escaped(s.layout@) + "\",\"active_tile\":"@ + decimal(
        s.active_tile as nat,
    ) + ",\"tiles\":["@ + comma_joined(number_items(s.tiles@)) + "],\"bindings\":\""@ + json_escaped(
        s.bindings@,
    ) + "\",\"binding_pairs\":["@ + comma_joined(pair_items(s.binding_pairs@))
        + "],\"tile_contexts\":["@ + comma_joined(context_items(s.tile_contexts@))
        + "],\"render_ops\":["@ + comma_joined(quoted_items(s.last_render_ops@)) + "]}"@
}

impl SessionSnapshot {
    /// Gathers what the tabs, the layout, the bindings and the last drawing
    /// steps show.
    pub fn from_state(
        tabs: &TabManager,
        frame: u64,
        layout: &LayoutTree,
        bindings: &TileBindings,
        ops: &[RenderOp],
    ) -> (s: Self)
        ensures
            s.frame == frame,
            s.active_tab_title@ == front_title(tabs.tabs_view(), tabs.active_spec()),
            s.layout@ == "active="@ + decimal(layout.active_spec() as nat) + " tree="@
                + describe_spec(layout.root_spec()),
            s.active_tile == layout.active_spec(),
            s.tiles@ == leaves_spec(layout.root_spec()),
            exists|texts: Seq<Seq<char>>, tiles: Seq<u64>|
                {
                    &&& s.bindings@ == comma_joined(texts)
                    &&& lex_sorted(texts)
                    &&& texts.len() == tiles.len() == bindings.bindings().dom().len()
                    &&& tiles.no_duplicates()
                    &&& forall|i: int|
                        0 <= i < tiles.len() ==> bindings.bindings().contains_key(#[trigger] tiles[i])
                            && texts[i] == binding_text(tiles[i], bindings.bindings()[tiles[i]])
                },
            s.binding_pairs@.len() == bindings.bindings().dom().len(),
            forall|i: int, j: int|
                0 <= i < j < s.binding_pairs@.len() ==> (#[trigger] s.binding_pairs@[i]).0
                    < (#[trigger] s.binding_pairs@[j]).0,
            forall|i: int|
                0 <= i < s.binding_pairs@.len() ==> bindings.bindings().contains_key(
                    (#[trigger] s.binding_pairs@[i]).0,
                ) && bindings.bindings()[s.binding_pairs@[i].0] == s.binding_pairs@[i].1,
            s.tile_contexts@.len() == s.binding_pairs@.len(),
            forall|i: int|
                0 <= i < s.tile_contexts@.len() ==> (#[trigger] s.tile_contexts@[i]).0
                    == s.binding_pairs@[i].0 && s.tile_contexts@[i].1@ == context_title(
                    tabs.tabs_view(),
                    s.binding_pairs@[i].1,
                ),
            s.last_render_ops@.len() == ops@.len(),
            forall|i: int|
                0 <= i < ops@.len() ==> (#[trigger] s.last_render_ops@[i])@ == op_text(
                    op_view(ops@[i]),
                ),
    {
        let pairs = bindings.pairs();
        let mut tile_contexts: Vec<(u64, String)> = Vec::new();
        let mut i: usize = 0;
        while i < pairs.len()
            invariant
                i <= pairs@.len(),
                tile_contexts@.len() == i,
                forall|k: int|
                    0 <= k < i ==> (#[trigger] tile_contexts@[k]).0 == pairs@[k].0
                        && tile_contexts@[k].1@ == context_title(tabs.tabs_view(), pairs@[k].1),
            decreases pairs@.len() - i,
        {
            let (tile, tab) = pairs[i];
            let title = match tabs.title_for(tab) {
                Some(t) => t,
                None => "unknown".to_owned(),
            };
            tile_contexts.push((tile, title));
            i = i + 1;
        }
        let mut last_render_ops: Vec<String> = Vec::new();
        let mut j: usize = 0;
        while j < ops.len()
            invariant
                j <= ops@.len(),
                last_render_ops@.len() == j,
                forall|k: int|
                    0 <= k < j ==> (#[trigger] last_render_ops@[k])@ == op_text(op_view(ops@[k])),
            decreases ops@.len() - j,
        {
            last_render_ops.push(describe_op(&ops[j]));
            j = j + 1;
        }
        Self {
            frame,
            active_tab_title: tabs.active_title(),
            layout: layout.describe(),
            active_tile: layout.active_id(),
            tiles: layout.leaf_ids(),
            bindings: bindings.describe(),
            binding_pairs: pairs,
            tile_contexts,
            last_render_ops,
        }
    }

    /// The snapshot as one JSON object.
    pub fn to_json(&self) -> (r: String)
        ensures
            r@ == json_of(*self),
    {
        let mut out = "{\"frame\":".to_owned();
        push_decimal(&mut out, self.frame);
        push_str(&mut out, ",\"active_tab\":\"");
        escape_json(self.active_tab_title.as_str(), &mut out);
        push_str(&mut out, "\",\"layout\":\"");
        escape_json(self.layout.as_str(), &mut out);
        push_str(&mut out, "\",\"active_tile\":");
        push_decimal(&mut out, self.active_tile);
        push_str(&mut out, ",\"tiles\":[");
        let ghost a = out@;
        let mut i: usize = 0;
        let ghost items = number_items(self.tiles@);
        assert(items.take(0) =~= Seq::<Seq<char>>::empty());
        while i < self.tiles.len()
            invariant
                i <= self.tiles@.len(),
                items == number_items(self.tiles@),
                out@ == a + comma_joined(items.take(i as int)),
            decreases self.tiles@.len() - i,
        {
            assert(items.take(i + 1).drop_last() =~= items.take(i as int));
            if i > 0 {
                push_char(&mut out, ',');
            }
            push_decimal(&mut out, self.tiles[i]);
            assert(out@ =~= a + comma_joined(items.take(i + 1)));
            i = i + 1;
        }
        assert(items.take(items.len() as int) =~= items);
        push_str(&mut out, "],\"bindings\":\"");
        escape_json(self.bindings.as_str(), &mut out);
        push_str(&mut out, "\",\"binding_pairs\":[");
        let ghost b = out@;
        let mut i: usize = 0;
        let ghost items = pair_items(self.binding_pairs@);
        assert(items.take(0) =~= Seq::<Seq<char>>::empty());
        while i < self.binding_pairs.len()
            invariant
                i <= self.binding_pairs@.len(),
                items == pair_items(self.binding_pairs@),
                out@ == b + comma_joined(items.take(i as int)),
            decreases self.binding_pairs@.len() - i,
        {
            assert(items.take(i + 1).drop_last() =~= items.take(i as int));
            if i > 0 {
                push_char(&mut out, ',');
            }
            let (tile, tab) = self.binding_pairs[i];
            push_char(&mut out, '[');
            push_decimal(&mut out, tile);
            push_char(&mut out, ',');
            push_decimal(&mut out, tab);
            push_char(&mut out, ']');
            assert(out@ =~= b + comma_joined(items.take(i + 1)));
            i = i + 1;
        }
        assert(items.take(items.len() as int) =~= items);
        push_str(&mut out, "],\"tile_contexts\":[");
        let ghost c = out@;
        let mut i: usize = 0;
        let ghost items = context_items(self.tile_contexts@);
        assert(items.take(0) =~= Seq::<Seq<char>>::empty());
        while i < self.tile_contexts.len()
            invariant
                i <= self.tile_contexts@.len(),
                items == context_items(self.tile_contexts@),
                out@ == c + comma_joined(items.take(i as int)),
            decreases self.tile_contexts@.len() - i,
        {
            assert(items.take(i + 1).drop_last() =~= items.take(i as int));
            if i > 0 {
                push_char(&mut out, ',');
            }
            push_char(&mut out, '[');
            push_decimal(&mut out, self.tile_contexts[i].0);
            push_char(&mut out, ',');
            push_char(&mut out, '"');
            escape_json(self.tile_contexts[i].1.as_str(), &mut out);
            push_char(&mut out, '"');
            push_char(&mut out, ']');
            assert(out@ =~= c + comma_joined(items.take(i + 1)));
            i = i + 1;
        }
        assert(items.take(items.len() as int) =~= items);
        push_str(&mut out, "],\"render_ops\":[");
        let ghost d = out@;
        let mut i: usize = 0;
        let ghost items = quoted_items(self.last_render_ops@);
        assert(items.take(0) =~= Seq::<Seq<char>>::empty());
        while i < self.last_render_ops.len()
            invariant
                i <= self.last_render_ops@.len(),
                items == quoted_items(self.last_render_ops@),
                out@ == d + comma_joined(items.take(i as int)),
            decreases self.last_render_ops@.len() - i,
        {
            assert(items.take(i + 1).drop_last() =~= items.take(i as int));
            if i > 0 {
                push_char(&mut out, ',');
            }
            push_char(&mut out, '"');
            escape_json(self.last_render_ops[i].as_str(), &mut out);
            push_char(&mut out, '"');
            assert(out@ =~= d + comma_joined(items.take(i + 1)));
            i = i + 1;
        }
        assert(items.take(items.len() as int) =~= items);
        push_str(&mut out, "]}");
        assert(out@ =~= json_of(*self));
        out
    }
}

} // verus!
