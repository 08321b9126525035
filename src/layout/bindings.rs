use vstd::prelude::*;
use std::collections::HashMap;
use crate::strings::{chars_of, comma_joined, decimal, push_char, push_decimal, push_str, string_of};

verus! {

broadcast use vstd::std_specs::hash::group_hash_axioms;

/// Which tab each tile shows.
#[derive(Debug, Clone)]
pub struct TileBindings {
    map: HashMap<u64, u64>,
}

/// `a` comes before `b` or equals it, character by character.
pub open spec fn lex_le(a: Seq<char>, b: Seq<char>) -> bool
    decreases a.len(),
{
    if a.len() == 0 {
        true
    } else if b.len() == 0 {
        false
    } else if (a[0] as u32) != (b[0] as u32) {
        (a[0] as u32) < (b[0] as u32)
    } else {
        lex_le(a.drop_first(), b.drop_first())
    }
}

proof fn lemma_lex_total(a: Seq<char>, b: Seq<char>)
    ensures
        lex_le(a, b) || lex_le(b, a),
    decreases a.len(),
{
    if a.len() > 0 && b.len() > 0 && (a[0] as u32) == (b[0] as u32) {
        lemma_lex_total(a.drop_first(), b.drop_first());
    }
}

proof fn lemma_lex_trans(a: Seq<char>, b: Seq<char>, c: Seq<char>)
    requires
        lex_le(a, b),
        lex_le(b, c),
    ensures
        lex_le(a, c),
    decreases a.len(),
{
    if a.len() > 0 && b.len() > 0 && c.len() > 0 && (a[0] as u32) == (b[0] as u32) && (b[0] as u32)
        == (c[0] as u32) {
        lemma_lex_trans(a.drop_first(), b.drop_first(), c.drop_first());
    }
}

/// `tile->tab`.
pub open spec fn binding_text(tile: u64, tab: u64) -> Seq<char> {
    decimal(tile as nat) + seq!['-', '>'] + decimal(tab as nat)
}

/// `ss` in order by `lex_le`.
pub open spec fn lex_sorted(ss: Seq<Seq<char>>) -> bool {
    forall|i: int, j: int| 0 <= i < j < ss.len() ==> lex_le(#[trigger] ss[i], #[trigger] ss[j])
}

fn text_le(a: &Vec<char>, b: &Vec<char>) -> (r: bool)
    ensures
        r == lex_le(a@, b@),
{
    let mut i: usize = 0;
    assert(a@.skip(0) =~= a@);
    assert(b@.skip(0) =~= b@);
    while i < a.len() && i < b.len() && (a[i] as u32) == (b[i] as u32)
        invariant
            i <= a@.len(),
            i <= b@.len(),
            lex_le(a@, b@) == lex_le(a@.skip(i as int), b@.skip(i as int)),
        decreases a@.len() - i,
    {
        assert(a@.skip(i as int).drop_first() =~= a@.skip(i + 1));
        assert(b@.skip(i as int).drop_first() =~= b@.skip(i + 1));
        i = i + 1;
    }
    if i == a.len() {
        true
    } else if i == b.len() {
        false
    } else {
        (a[i] as u32) < (b[i] as u32)
    }
}

impl TileBindings {
    pub closed spec fn bindings(&self) -> Map<u64, u64> {
        self.map@
    }

    /// Tile 1 shows `default_tab`.
    pub fn new(default_tab: u64) -> (b: Self)
        ensures
            b.bindings() == map![1u64 => default_tab],
    {
        let mut map: HashMap<u64, u64> = HashMap::new();
        map.insert(1, default_tab);
        let b = Self { map };
        assert(b.bindings() =~= map![1u64 => default_tab]);
        b
    }

    /// Each of `tiles` that has no tab yet gets `default_tab`.
    pub fn ensure_tiles(&mut self, tiles: &[u64], default_tab: u64)
        ensures
            final(self).bindings().dom() == old(self).bindings().dom() + tiles@.to_set(),
            forall|t: u64| #[trigger]
                final(self).bindings().contains_key(t) ==> final(self).bindings()[t] == (if old(
                    self,
                ).bindings().contains_key(t) {
                    old(self).bindings()[t]
                } else {
                    default_tab
                }),
    {
        let mut i: usize = 0;
        while i < tiles.len()
            invariant
                i <= tiles@.len(),
                self.map@.dom() == old(self).map@.dom() + tiles@.take(i as int).to_set(),
                forall|t: u64| #[trigger]
                    self.map@.contains_key(t) ==> self.map@[t] == (if old(self).map@.contains_key(
                        t,
                    ) {
                        old(self).map@[t]
                    } else {
                        default_tab
                    }),
            decreases tiles@.len() - i,
        {
            let tile = tiles[i];
            if !self.map.contains_key(&tile) {
                self.map.insert(tile, default_tab);
            }
            assert(tiles@.take(i + 1) =~= tiles@.take(i as int).push(tile));
            proof {
                tiles@.take(i as int).lemma_push_to_set_commute(tile);
            }
            assert(self.map@.dom() =~= old(self).map@.dom() + tiles@.take(i + 1).to_set());
            i = i + 1;
        }
        assert(tiles@.take(tiles@.len() as int) =~= tiles@);
    }

    /// Shows `tab` on `tile`, if `tile` is bound.
    pub fn bind(&mut self, tile: u64, tab: u64) -> (r: bool)
        ensures
            r == old(self).bindings().contains_key(tile),
            final(self).bindings() == (if r {
                old(self).bindings().insert(tile, tab)
            } else {
                old(self).bindings()
            }),
    {
        if self.map.contains_key(&tile) {
            self.map.insert(tile, tab);
            true
        } else {
            false
        }
    }

    /// Forgets `tile`; whether it was bound.
    pub fn unbind(&mut self, tile: u64) -> (r: bool)
        ensures
            r == old(self).bindings().contains_key(tile),
            final(self).bindings() == old(self).bindings().remove(tile),
    {
        self.map.remove(&tile).is_some()
    }

    /// The bindings in order of tile.
    pub fn pairs(&self) -> (r: Vec<(u64, u64)>)
        ensures
            r@.len() == self.bindings().dom().len(),
            forall|i: int, j: int| 0 <= i < j < r@.len() ==> (#[trigger] r@[i]).0 < (#[trigger] r@[j]).0,
            forall|i: int|
                0 <= i < r@.len() ==> self.bindings().contains_key((#[trigger] r@[i]).0)
                    && self.bindings()[r@[i].0] == r@[i].1,
    {
        let mut sorted: Vec<(u64, u64)> = Vec::new();
        let ghost m = self.map@;
        for k in it: self.map.keys()
            invariant
                m == self.map@,
                it.seq().no_duplicates(),
                it.seq().len() == m.dom().len(),
                it.seq().unref().to_set() == m.dom(),
                sorted@.len() == it.index(),
                forall|i: int, j: int|
                    0 <= i < j < sorted@.len() ==> (#[trigger] sorted@[i]).0 < (
                    #[trigger] sorted@[j]).0,
                forall|i: int|
                    0 <= i < sorted@.len() ==> m.contains_key((#[trigger] sorted@[i]).0) && m[sorted@[i].0]
                        == sorted@[i].1,
                forall|i: int|
                    0 <= i < sorted@.len() ==> it.seq().take(it.index() as int).unref().contains(
                        (#[trigger] sorted@[i]).0,
                    ),
        {
            let ghost idx = it.index() as int;
            assert(m.contains_key(*k));
            let v = match self.map.get(k) {
                Some(v) => *v,
                None => 0,
            };
            let mut p: usize = 0;
            while p < sorted.len() && sorted[p].0 < *k
                invariant
                    p <= sorted@.len(),
                    forall|j: int| 0 <= j < p ==> (#[trigger] sorted@[j]).0 < *k,
                decreases sorted@.len() - p,
            {
                p = p + 1;
            }
            let ghost done = it.seq().take(idx).unref();
            proof {
                assert forall|j: int| 0 <= j < sorted@.len() implies (#[trigger] sorted@[j]).0 != *k by {
                    assert(done.contains(sorted@[j].0));
                    let t = choose|t: int| 0 <= t < done.len() && done[t] == sorted@[j].0;
                    assert(done[t] == *it.seq()[t]);
                    assert(it.seq()[t] != it.seq()[idx]);
                }
            }
            let ghost before = sorted@;
            sorted.insert(p, (*k, v));
            proof {
                let done1 = it.seq().take(idx + 1).unref();
                assert(done1 =~= done.push(*k));
                assert forall|j: int| 0 <= j < sorted@.len() implies done1.contains(
                    #[trigger] sorted@[j].0,
                ) by {
                    if j != p {
                        let x = if j < p { before[j] } else { before[j - 1] };
                        assert(sorted@[j] == x);
                        assert(done.contains(x.0));
                        let t = choose|t: int| 0 <= t < done.len() && done[t] == x.0;
                        assert(done1[t] == done[t]);
                    } else {
                        assert(done1[idx] == sorted@[j].0);
                    }
                }
                assert forall|a: int, b: int| 0 <= a < b < sorted@.len() implies (
                #[trigger] sorted@[a]).0 < (#[trigger] sorted@[b]).0 by {
                    if b < p {
                        assert(sorted@[a] == before[a] && sorted@[b] == before[b]);
                    } else if b == p {
                        assert(sorted@[a] == before[a]);
                    } else if a < p {
                        assert(sorted@[a] == before[a] && sorted@[b] == before[b - 1]);
                        if p < before.len() {
                            assert(before[p as int].0 >= *k);
                            assert(before[p as int].0 != *k);
                        }
                    } else if a == p {
                        assert(sorted@[b] == before[b - 1]);
                        assert(before[p as int].0 >= *k);
                        assert(before[p as int].0 != *k);
                        if b - 1 > p {
                            assert(before[p as int].0 < before[b - 1].0);
                        }
                    } else {
                        assert(sorted@[a] == before[a - 1] && sorted@[b] == before[b - 1]);
                    }
                }
            }
        }
        sorted
    }

    /// `tile->tab` for each binding, in text order, separated by commas.
    pub fn describe(&self) -> (r: String)
        ensures
            exists|texts: Seq<Seq<char>>, tiles: Seq<u64>|
                {
                    &&& r@ == comma_joined(texts)
                    &&& lex_sorted(texts)
                    &&& texts.len() == tiles.len() == self.bindings().dom().len()
                    &&& tiles.no_duplicates()
                    &&& forall|i: int|
                        0 <= i < tiles.len() ==> self.bindings().contains_key(#[trigger] tiles[i])
                            && texts[i] == binding_text(tiles[i], self.bindings()[tiles[i]])
                },
    {
        let ps = self.pairs();
        let ghost m = self.map@;
        let mut sorted: Vec<Vec<char>> = Vec::new();
        let ghost mut tiles: Seq<u64> = Seq::empty();
        let mut i: usize = 0;
        while i < ps.len()
            invariant
                i <= ps@.len(),
                m == self.map@,
                ps@.len() == m.dom().len(),
                forall|a: int, b: int| 0 <= a < b < ps@.len() ==> (#[trigger] ps@[a]).0 < (#[trigger] ps@[b]).0,
                forall|a: int| 0 <= a < ps@.len() ==> m.contains_key((#[trigger] ps@[a]).0) && m[ps@[a].0] == ps@[a].1,
                sorted@.len() == tiles.len() == i,
                tiles.no_duplicates(),
                i > 0 ==> forall|j: int| 0 <= j < tiles.len() ==> #[trigger] tiles[j] <= ps@[i - 1].0,
                forall|a: int, b: int|
                    0 <= a < b < sorted@.len() ==> lex_le((#[trigger] sorted@[a])@, (#[trigger] sorted@[b])@),
                forall|j: int|
                    0 <= j < tiles.len() ==> m.contains_key(#[trigger] tiles[j]) && sorted@[j]@ == binding_text(
                        tiles[j],
                        m[tiles[j]],
                    ),
            decreases ps@.len() - i,
        {
            let (tile, tab) = ps[i];
            let mut t = String::new();
            push_decimal(&mut t, tile);
            push_char(&mut t, '-');
            push_char(&mut t, '>');
            push_decimal(&mut t, tab);
            let tv = chars_of(t.as_str());
            assert(tv@ =~= binding_text(tile, tab));
            let mut p: usize = 0;
            while p < sorted.len() && text_le(&sorted[p], &tv)
                invariant
                    p <= sorted@.len(),
                    forall|j: int| 0 <= j < p ==> lex_le((#[trigger] sorted@[j])@, tv@),
                decreases sorted@.len() - p,
            {
                p = p + 1;
            }
            let ghost before = sorted@;
            let ghost old_tiles = tiles;
            proof {
                if p < before.len() {
                    lemma_lex_total(tv@, before[p as int]@);
                }
                assert forall|j: int| 0 <= j < old_tiles.len() implies #[trigger] old_tiles[j] != tile by {
                    if i > 0 {
                        assert(ps@[i - 1].0 < ps@[i as int].0);
                    }
                }
            }
            sorted.insert(p, tv);
            proof {
                tiles = old_tiles.insert(p as int, tile);
                assert forall|a: int, b: int| 0 <= a < b < sorted@.len() implies lex_le(
                    (#[trigger] sorted@[a])@,
                    (#[trigger] sorted@[b])@,
                ) by {
                    if b < p {
                        assert(sorted@[a] == before[a] && sorted@[b] == before[b]);
                    } else if b == p {
                        assert(sorted@[a] == before[a]);
                    } else if a < p {
                        assert(sorted@[a] == before[a] && sorted@[b] == before[b - 1]);
                        lemma_lex_trans(before[a]@, tv@, before[p as int]@);
                        if b - 1 > p {
                            lemma_lex_trans(before[a]@, before[p as int]@, before[b - 1]@);
                        }
                    } else if a == p {
                        assert(sorted@[b] == before[b - 1]);
                        if b - 1 > p {
                            lemma_lex_trans(tv@, before[p as int]@, before[b - 1]@);
                        }
                    } else {
                        assert(sorted@[a] == before[a - 1] && sorted@[b] == before[b - 1]);
                    }
                }
                assert forall|j: int| 0 <= j < tiles.len() implies m.contains_key(#[trigger] tiles[j])
                    && sorted@[j]@ == binding_text(tiles[j], m[tiles[j]]) by {
                    if j < p {
                        assert(tiles[j] == old_tiles[j] && sorted@[j] == before[j]);
                    } else if j > p {
                        assert(tiles[j] == old_tiles[j - 1] && sorted@[j] == before[j - 1]);
                    }
                }
                assert forall|a: int, b: int| 0 <= a < b < tiles.len() implies tiles[a] != tiles[b] by {
                    if a == p {
                        assert(tiles[b] == old_tiles[b - 1]);
                    } else if b == p {
                        assert(tiles[a] == old_tiles[a]);
                    } else {
                        assert(tiles[a] == (if a < p { old_tiles[a] } else { old_tiles[a - 1] }));
                        assert(tiles[b] == (if b < p { old_tiles[b] } else { old_tiles[b - 1] }));
                    }
                }
                assert forall|j: int| 0 <= j < tiles.len() implies #[trigger] tiles[j] <= ps@[i as int].0 by {
                    if j < p {
                        assert(tiles[j] == old_tiles[j]);
                        if i > 0 {
                            assert(ps@[i - 1].0 < ps@[i as int].0);
                        }
                    } else if j > p {
                        assert(tiles[j] == old_tiles[j - 1]);
                        if i > 0 {
                            assert(ps@[i - 1].0 < ps@[i as int].0);
                        }
                    }
                }
            }
            i = i + 1;
        }
        let mut out = String::new();
        let mut q: usize = 0;
        let ghost texts = sorted@.map_values(|v: Vec<char>| v@);
        assert(texts.take(0) =~= Seq::<Seq<char>>::empty());
        while q < sorted.len()
            invariant
                q <= sorted@.len(),
                texts == sorted@.map_values(|v: Vec<char>| v@),
                out@ == comma_joined(texts.take(q as int)),
            decreases sorted@.len() - q,
        {
            assert(texts.take(q + 1).drop_last() =~= texts.take(q as int));
            if q > 0 {
                push_char(&mut out, ',');
            }
            let piece = string_of(&sorted[q], 0, sorted[q].len());
            assert(piece@ =~= texts[q as int]);
            push_str(&mut out, piece.as_str());
            assert(out@ =~= comma_joined(texts.take(q + 1)));
            q = q + 1;
        }
        assert(texts.take(texts.len() as int) =~= texts);
        assert(lex_sorted(texts));
        assert forall|j: int| 0 <= j < tiles.len() implies self.bindings().contains_key(#[trigger] tiles[j])
            && texts[j] == binding_text(tiles[j], self.bindings()[tiles[j]]) by {
            assert(texts[j] == sorted@[j]@);
        }
        out
    }
}

} // verus!
