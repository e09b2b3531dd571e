//! Save-file encoding: run-length encoding of chunk blocks, property
//! overrides, restoring chunks, and reading the format version from the
//! start of a save without parsing the rest.

use vstd::prelude::*;
use vstd::string::*;
use crate::block::BlockId;
use crate::world::{Chunk, ChunkPos, local_index, in_chunk};

verus! {

pub const CLASSIC_SAVE_VERSION: u32 = 6;

/// A run of `len` equal blocks.
#[derive(Clone, Debug)]
pub struct SaveBlockRun {
    pub block: BlockId,
    pub len: usize,
}

/// One property override of a chunk: block index, property index, value index.
#[derive(Clone, Copy, Debug)]
pub struct SaveBlockProperty {
    pub index: usize,
    pub prop: u8,
    pub value: u8,
}

pub open spec fn run_view(r: SaveBlockRun) -> (Seq<char>, int) {
    (r.block@, r.len as int)
}

pub open spec fn runs_view(runs: Seq<SaveBlockRun>) -> Seq<(Seq<char>, int)> {
    runs.map_values(|r: SaveBlockRun| run_view(r))
}

/// The blocks that a list of runs stands for, in order.
pub open spec fn expand(runs: Seq<(Seq<char>, int)>) -> Seq<Seq<char>>
    decreases runs.len(),
{
    if runs.len() == 0 {
        Seq::empty()
    } else {
        expand(runs.drop_last()) + Seq::new(runs.last().1 as nat, |i: int| runs.last().0)
    }
}

/// Every run is non-empty and no two neighboring runs hold the same block.
pub open spec fn maximal_runs(runs: Seq<(Seq<char>, int)>) -> bool {
    &&& forall|i: int| 0 <= i < runs.len() ==> (#[trigger] runs[i]).1 > 0
    &&& forall|i: int| 0 <= i < runs.len() - 1 ==> (#[trigger] runs[i]).0 != runs[i + 1].0
}

/// The decoded chunk blocks: present exactly when every run is non-empty and
/// the runs cover exactly one chunk.
pub open spec fn spec_decode(runs: Seq<(Seq<char>, int)>) -> Option<Seq<Seq<char>>> {
    if (forall|i: int| 0 <= i < runs.len() ==> (#[trigger] runs[i]).1 > 0) && expand(runs).len() == 16384 {
        Some(expand(runs))
    } else {
        None
    }
}

proof fn lemma_expand_len_mono(runs: Seq<(Seq<char>, int)>, k: int)
    requires
        0 <= k <= runs.len(),
        forall|i: int| 0 <= i < runs.len() ==> (#[trigger] runs[i]).1 >= 0,
    ensures
        expand(runs.subrange(0, k)).len() <= expand(runs).len(),
    decreases runs.len(),
{
    if k < runs.len() {
        assert(runs.drop_last().subrange(0, k) =~= runs.subrange(0, k));
        lemma_expand_len_mono(runs.drop_last(), k);
    } else {
        assert(runs.subrange(0, k) =~= runs);
    }
}

/// Run-length encodes the blocks of a chunk into maximal runs.
pub fn encode_block_runs(blocks: &Vec<BlockId>) -> (r: Vec<SaveBlockRun>)
    ensures
        expand(runs_view(r@)) == blocks@.map_values(|b: BlockId| b@),
        maximal_runs(runs_view(r@)),
{
    let mut runs: Vec<SaveBlockRun> = Vec::new();
    if blocks.len() == 0 {
        assert(expand(runs_view(runs@)) =~= blocks@.map_values(|b: BlockId| b@));
        return runs;
    }
    let ghost bv = blocks@.map_values(|b: BlockId| b@);
    let mut current = blocks[0].copy();
    let mut len: usize = 0;
    let mut i: usize = 0;
    while i < blocks.len()
        invariant
            bv == blocks@.map_values(|b: BlockId| b@),
            blocks@.len() > 0,
            i <= blocks@.len(),
            len <= i,
            i > 0 ==> len > 0,
            i == 0 ==> len == 0 && current@ == bv[0],
            expand(runs_view(runs@)) + Seq::new(len as nat, |k: int| current@) == bv.subrange(0, i as int),
            maximal_runs(runs_view(runs@)),
            runs@.len() > 0 ==> runs_view(runs@).last().0 != current@,
        decreases blocks.len() - i,
    {
        let ghost before = runs@;
        if blocks[i].same(&current) {
            let ghost oldlen = len;
            len = len + 1;
            assert(Seq::new(len as nat, |k: int| current@) =~= Seq::new(oldlen as nat, |k: int| current@).push(current@));
            assert(bv.subrange(0, i + 1) =~= bv.subrange(0, i as int).push(bv[i as int]));
            assert(expand(runs_view(runs@)) + Seq::new(len as nat, |k: int| current@) =~= bv.subrange(0, i + 1));
        } else {
            let ghost cur = current@;
            let ghost l = len;
            runs.push(SaveBlockRun { block: current, len });
            current = blocks[i].copy();
            len = 1;
            proof {
                assert(runs_view(runs@) =~= runs_view(before).push((cur, l as int)));
                assert(runs_view(runs@).drop_last() =~= runs_view(before));
                assert(expand(runs_view(runs@)) =~= expand(runs_view(before)) + Seq::new(l as nat, |k: int| cur));
                assert(expand(runs_view(runs@)) + Seq::new(len as nat, |k: int| current@) =~= bv.subrange(0, i + 1));
            }
        }
        i = i + 1;
    }
    let ghost before = runs@;
    let ghost cur = current@;
    let ghost l = len;
    runs.push(SaveBlockRun { block: current, len });
    proof {
        assert(runs_view(runs@) =~= runs_view(before).push((cur, l as int)));
        assert(runs_view(runs@).drop_last() =~= runs_view(before));
        assert(bv.subrange(0, blocks@.len() as int) =~= bv);
        assert(expand(runs_view(runs@)) =~= bv);
    }
    runs
}

/// Decodes run-length encoded chunk blocks; `None` when a run is empty or the
/// runs do not cover exactly one chunk.
pub fn decode_block_runs(runs: &Vec<SaveBlockRun>) -> (r: Option<Vec<BlockId>>)
    ensures
        match r {
            Some(v) => spec_decode(runs_view(runs@)) == Some(v@.map_values(|b: BlockId| b@)),
            None => spec_decode(runs_view(runs@)) is None,
        },
{
    let ghost rv = runs_view(runs@);
    let mut blocks: Vec<BlockId> = Vec::new();
    let mut i: usize = 0;
    while i < runs.len()
        invariant
            rv == runs_view(runs@),
            i <= runs@.len(),
            blocks@.map_values(|b: BlockId| b@) == expand(rv.subrange(0, i as int)),
            blocks@.len() <= 16384,
            forall|j: int| 0 <= j < i ==> (#[trigger] rv[j]).1 > 0,
        decreases runs.len() - i,
    {
        let run = &runs[i];
        if run.len == 0 || run.len > 16384 - blocks.len() {
            proof {
                if run.len != 0 {
                    if forall|j: int| 0 <= j < rv.len() ==> (#[trigger] rv[j]).1 > 0 {
                        assert(rv.subrange(0, i + 1).drop_last() =~= rv.subrange(0, i as int));
                        lemma_expand_len_mono(rv, i + 1);
                    }
                } else {
                    assert(rv[i as int].1 == 0);
                }
            }
            return None;
        }
        let ghost before = blocks@;
        let mut k: usize = 0;
        while k < run.len
            invariant
                k <= run.len,
                blocks@.len() == before.len() + k,
                blocks@.map_values(|b: BlockId| b@) == before.map_values(|b: BlockId| b@) + Seq::new(k as nat, |t: int| run.block@),
            decreases run.len - k,
        {
            let ghost prev = blocks@;
            let b = run.block.copy();
            let ghost bv = b@;
            blocks.push(b);
            assert(blocks@ == prev.push(b));
            assert(blocks@.map_values(|b: BlockId| b@) =~= prev.map_values(|b: BlockId| b@).push(bv));
            k = k + 1;
            assert(blocks@.map_values(|b: BlockId| b@) =~= before.map_values(|b: BlockId| b@) + Seq::new(k as nat, |t: int| run.block@));
        }
        proof {
            assert(rv.subrange(0, i + 1).drop_last() =~= rv.subrange(0, i as int));
            assert(rv[i as int] == run_view(*run));
        }
        i = i + 1;
    }
    assert(rv.subrange(0, runs@.len() as int) =~= rv);
    if blocks.len() == 16384 {
        Some(blocks)
    } else {
        None
    }
}

/// Encoding a chunk's blocks and decoding the runs gives the blocks back.
pub proof fn law_decode_inverts_encode(runs: Seq<(Seq<char>, int)>, blocks: Seq<Seq<char>>)
    requires
        blocks.len() == 16384,
        expand(runs) == blocks,
        maximal_runs(runs),
    ensures
        spec_decode(runs) == Some(blocks),
{
}

/// The property overrides of a chunk, in the order they were set.
pub fn encode_block_properties(chunk: &Chunk) -> (r: Vec<SaveBlockProperty>)
    ensures
        r@.len() == chunk.overrides().len(),
        forall|i: int| 0 <= i < r@.len() ==> (#[trigger] r@[i]).index == chunk.overrides()[i].0
            && r@[i].prop == chunk.overrides()[i].1 && r@[i].value == chunk.overrides()[i].2,
{
    let props = chunk.property_overrides();
    let mut out: Vec<SaveBlockProperty> = Vec::new();
    let mut i: usize = 0;
    while i < props.len()
        invariant
            i <= props@.len(),
            props@ == chunk.overrides(),
            out@.len() == i,
            forall|j: int| 0 <= j < i ==> (#[trigger] out@[j]).index == props@[j].0 && out@[j].prop == props@[j].1
                && out@[j].value == props@[j].2,
        decreases props.len() - i,
    {
        let (index, prop, value) = props[i];
        out.push(SaveBlockProperty { index, prop, value });
        i = i + 1;
    }
    out
}

/// Rebuilds a saved chunk at `pos`: its decoded blocks, then the saved
/// property overrides in order, skipping indices outside the chunk. `None`
/// when the runs are malformed. The chunk comes back clean.
pub fn chunk_from_save(pos: ChunkPos, runs: &Vec<SaveBlockRun>, properties: &Vec<SaveBlockProperty>) -> (r: Option<Chunk>)
    ensures
        match r {
            Some(c) => spec_decode(runs_view(runs@)) == Some(c.blocks_view()) && c.wf() && c.spec_pos() == pos
                && !c.spec_dirty()
                && c.overrides() == properties@.filter(|p: SaveBlockProperty| p.index < 16384).map_values(
                    |p: SaveBlockProperty| (p.index, p.prop, p.value),
                ),
            None => spec_decode(runs_view(runs@)) is None,
        },
{
    let blocks = match decode_block_runs(runs) {
        Some(b) => b,
        None => return None,
    };
    let ghost bv = blocks@.map_values(|b: BlockId| b@);
    let mut chunk = Chunk::new(pos);
    let mut idx: usize = 0;
    while idx < 16384
        invariant
            idx <= 16384,
            chunk.wf(),
            chunk.spec_pos() == pos,
            chunk.overrides().len() == 0,
            blocks@.len() == 16384,
            bv == blocks@.map_values(|b: BlockId| b@),
            bv.len() == 16384,
            forall|i: int| 0 <= i < 16384 ==> #[trigger] chunk.blocks_view()[i] == if i < idx { bv[i] } else { Seq::<char>::empty() },
        decreases 16384 - idx,
    {
        let x = idx % 16;
        let z = (idx / 16) % 16;
        let y = idx / 256;
        assert(local_index(x as int, y as int, z as int) == idx && in_chunk(x as int, y as int, z as int)) by (nonlinear_arith)
            requires
                x == idx % 16,
                z == (idx / 16) % 16,
                y == idx / 256,
                idx < 16384;
        assert(bv[idx as int] == blocks@[idx as int]@);
        let ghost old_view = chunk.blocks_view();
        proof {
            chunk.lemma_wf_len();
        }
        chunk.set_block(x, y, z, blocks[idx].copy());
        assert(chunk.blocks_view() == old_view.update(idx as int, bv[idx as int]));
        assert forall|i: int| 0 <= i < 16384 implies #[trigger] chunk.blocks_view()[i] == if i < idx + 1 { bv[i] } else { Seq::<char>::empty() } by {
            assert(old_view[i] == if i < idx { bv[i] } else { Seq::<char>::empty() });
        }
        idx = idx + 1;
    }
    proof {
        chunk.lemma_wf_len();
    }
    assert(chunk.blocks_view() =~= bv);
    let ghost kept = properties@.filter(|p: SaveBlockProperty| p.index < 16384).map_values(
        |p: SaveBlockProperty| (p.index, p.prop, p.value),
    );
    let mut i: usize = 0;
    while i < properties.len()
        invariant
            i <= properties@.len(),
            chunk.wf(),
            chunk.spec_pos() == pos,
            chunk.blocks_view() == bv,
            chunk.overrides() == properties@.subrange(0, i as int).filter(|p: SaveBlockProperty| p.index < 16384).map_values(
                |p: SaveBlockProperty| (p.index, p.prop, p.value),
            ),
        decreases properties.len() - i,
    {
        let property = properties[i];
        let ghost before = properties@.subrange(0, i as int);
        proof {
            assert(properties@.subrange(0, i + 1) =~= before.push(property));
            reveal_with_fuel(Seq::<_>::filter, 1);
            assert(before.push(property).drop_last() =~= before);
        }
        if property.index < 16384 {
            let x = property.index % 16;
            let z = (property.index / 16) % 16;
            let y = property.index / 256;
            assert(local_index(x as int, y as int, z as int) == property.index) by (nonlinear_arith)
                requires
                    x == property.index % 16,
                    z == (property.index / 16) % 16,
                    y == property.index / 256,
                    property.index < 16384;
            chunk.set_property(x, y, z, property.prop, property.value);
            assert(chunk.overrides() =~= properties@.subrange(0, i + 1).filter(|p: SaveBlockProperty| p.index < 16384).map_values(
                |p: SaveBlockProperty| (p.index, p.prop, p.value),
            ));
        } else {
            assert(chunk.overrides() =~= properties@.subrange(0, i + 1).filter(|p: SaveBlockProperty| p.index < 16384).map_values(
                |p: SaveBlockProperty| (p.index, p.prop, p.value),
            ));
        }
        i = i + 1;
    }
    assert(properties@.subrange(0, properties@.len() as int) =~= properties@);
    chunk.clear_dirty();
    Some(chunk)
}

/// Whether `c` is removed by `str::trim_start` (Unicode White_Space).
pub open spec fn is_unicode_whitespace(c: char) -> bool {
    ('\u{9}' <= c && c <= '\u{d}') || c == ' ' || c == '\u{85}' || c == '\u{a0}' || c == '\u{1680}'
        || ('\u{2000}' <= c && c <= '\u{200a}') || c == '\u{2028}' || c == '\u{2029}' || c == '\u{202f}'
        || c == '\u{205f}' || c == '\u{3000}'
}

pub open spec fn format_version_marker() -> Seq<char> {
    "\"format_version\""@
}

/// Index of the first occurrence of `m` in `s` at or after `i`.
pub open spec fn find_from(s: Seq<char>, m: Seq<char>, i: int) -> Option<int>
    decreases s.len() - i,
{
    if i < 0 || i >= s.len() || i + m.len() > s.len() {
        None
    } else if s.subrange(i, i + m.len()) == m {
        Some(i)
    } else {
        find_from(s, m, i + 1)
    }
}

/// First index at or after `i` whose character `skip` does not hold (or the length).
pub open spec fn skip_while_ws(s: Seq<char>, i: int) -> int
    decreases s.len() - i,
{
    if i < 0 || i >= s.len() || !is_unicode_whitespace(s[i]) {
        i
    } else {
        skip_while_ws(s, i + 1)
    }
}

/// First index at or after `i` that is not an ASCII digit (or the length).
pub open spec fn digits_end(s: Seq<char>, i: int) -> int
    decreases s.len() - i,
{
    if i < 0 || i >= s.len() || !('0' <= s[i] && s[i] <= '9') {
        i
    } else {
        digits_end(s, i + 1)
    }
}

/// The number written by the decimal digits `s[i..j]`.
pub open spec fn digits_value(s: Seq<char>, i: int, j: int) -> int
    decreases j - i,
{
    if j <= i {
        0
    } else {
        digits_value(s, i, j - 1) * 10 + (s[j - 1] as int - '0' as int)
    }
}

/// The save format version named in a save's header: the decimal digits after
/// the first `"format_version"`, its next `:` and any whitespace; `None`
/// when something is missing or the number does not fit in a `u32`.
pub open spec fn spec_format_version(s: Seq<char>) -> Option<u32> {
    match find_from(s, format_version_marker(), 0) {
        None => None,
        Some(k) => {
            let after = k + format_version_marker().len();
            match crate::text::first_index_from(s, ':', after) {
                None => None,
                Some(c) => {
                    let start = skip_while_ws(s, c + 1);
                    let end = digits_end(s, start);
                    if end == start || digits_value(s, start, end) > u32::MAX {
                        None
                    } else {
                        Some(digits_value(s, start, end) as u32)
                    }
                },
            }
        },
    }
}

fn matches_at(s: &str, n: usize, m: &str, mn: usize, i: usize) -> (r: bool)
    requires
        n == s@.len(),
        mn == m@.len(),
        i + mn <= n,
    ensures
        r == (s@.subrange(i as int, i + mn) == m@),
{
    let mut k: usize = 0;
    while k < mn
        invariant
            n == s@.len(),
            mn == m@.len(),
            i + mn <= n,
            k <= mn,
            forall|t: int| 0 <= t < k ==> s@[i + t] == m@[t],
        decreases mn - k,
    {
        if s.get_char(i + k) != m.get_char(k) {
            assert(s@.subrange(i as int, i + mn)[k as int] != m@[k as int]);
            return false;
        }
        k = k + 1;
    }
    assert(s@.subrange(i as int, i + mn) =~= m@);
    true
}

fn is_ws(c: char) -> (r: bool)
    ensures
        r == is_unicode_whitespace(c),
{
    ('\u{9}' <= c && c <= '\u{d}') || c == ' ' || c == '\u{85}' || c == '\u{a0}' || c == '\u{1680}'
        || ('\u{2000}' <= c && c <= '\u{200a}') || c == '\u{2028}' || c == '\u{2029}' || c == '\u{202f}'
        || c == '\u{205f}' || c == '\u{3000}'
}

fn find_marker(s: &str, n: usize, m: &str, mn: usize) -> (r: Option<usize>)
    requires
        n == s@.len(),
        mn == m@.len(),
    ensures
        match r {
            Some(k) => find_from(s@, m@, 0) == Some(k as int) && k + mn <= n,
            None => find_from(s@, m@, 0) is None,
        },
{
    if mn > n {
        assert(find_from(s@, m@, 0) is None);
        return None;
    }
    let mut i: usize = 0;
    while i <= n - mn
        invariant
            n == s@.len(),
            mn == m@.len(),
            mn <= n,
            find_from(s@, m@, 0) == find_from(s@, m@, i as int),
        decreases n - i,
    {
        if i >= n {
            return None;
        }
        if matches_at(s, n, m, mn, i) {
            return Some(i);
        }
        i = i + 1;
    }
    None
}

/// Reads the save format version from the start of a save file.
pub fn saved_format_version(header: &str) -> (r: Option<u32>)
    ensures
        r == spec_format_version(header@),
{
    let n = header.unicode_len();
    let marker = "\"format_version\"";
    let mn = marker.unicode_len();
    let k = match find_marker(header, n, marker, mn) {
        None => return None,
        Some(k) => k,
    };
    let mut c = k + mn;
    while c < n && header.get_char(c) != ':'
        invariant
            n == header@.len(),
            k + mn <= c <= n,
            crate::text::first_index_from(header@, ':', (k + mn) as int) == crate::text::first_index_from(header@, ':', c as int),
        decreases n - c,
    {
        c = c + 1;
    }
    if c >= n {
        return None;
    }
    let mut start = c + 1;
    while start < n && is_ws(header.get_char(start))
        invariant
            n == header@.len(),
            c < start <= n,
            skip_while_ws(header@, c + 1) == skip_while_ws(header@, start as int),
        decreases n - start,
    {
        start = start + 1;
    }
    let mut end = start;
    let mut value: u64 = 0;
    while end < n && '0' <= header.get_char(end) && header.get_char(end) <= '9'
        invariant
            n == header@.len(),
            start <= end <= n,
            digits_end(header@, start as int) == digits_end(header@, end as int),
            value as int == digits_value(header@, start as int, end as int) || (value > u32::MAX && digits_value(header@, start as int, end as int) > u32::MAX),
            value <= u32::MAX + 1,
        decreases n - end,
    {
        let d = (header.get_char(end) as u32 - '0' as u32) as u64;
        proof {
            assert(digits_value(header@, start as int, end + 1) == digits_value(header@, start as int, end as int) * 10 + d);
        }
        if value <= u32::MAX as u64 {
            value = value * 10 + d;
            if value > u32::MAX as u64 {
                value = u32::MAX as u64 + 1;
            }
        }
        end = end + 1;
    }
    if end == start || value > u32::MAX as u64 {
        None
    } else {
        Some(value as u32)
    }
}

} // verus!
