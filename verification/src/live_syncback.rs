//! Layout of a live-syncback payload.
//!
//! Studio sends one data blob whose top-level instances are laid out service
//! by service: first the children of a service, then the carrier instances
//! that hold the targets of the service's reference properties. Each service
//! chunk says how many of each it claims. This module checks those counts
//! against the blob and works out where each service's instances lie.

use vstd::prelude::*;
use crate::text::{chars_of, string_from_chars, push_str, push_decimal, decimal};

verus! {

/// What a service chunk of the payload claims of the blob.
pub struct ServiceChunkCounts {
    /// The service's class name.
    pub class_name: String,
    /// How many top-level instances of the blob are the service's children.
    pub child_count: u32,
    /// How many carrier instances follow those children.
    pub ref_target_count: u32,
    /// Reference properties of the service, each with the 1-based index of
    /// its carrier among the service's carriers.
    pub refs: Vec<(String, u32)>,
}

/// Where a service's instances lie among the blob's top-level instances.
pub struct ServiceLayout {
    /// Index of the service's first child.
    pub children_start: usize,
    /// Index of the service's first carrier (one past its last child).
    pub carriers_start: usize,
    /// One past the service's last carrier.
    pub end: usize,
    /// Each reference property whose carrier index is in range, with the
    /// index of its carrier among the blob's top-level instances.
    pub refs: Vec<(String, usize)>,
}

/// Why a payload's chunks do not fit its blob.
pub enum ChunkLayoutError {
    /// A service claims more instances than remain in the blob.
    TooFewInstances { class_name: String, child_count: u32, ref_target_count: u32, remaining: usize },
    /// The chunks together claim fewer instances than the blob holds.
    CountMismatch { accounted: usize, total: usize },
}

/// How many top-level instances a chunk claims.
pub open spec fn chunk_total(c: ServiceChunkCounts) -> int {
    c.child_count + c.ref_target_count
}

/// Index of the first instance of chunk `i`: what the chunks before it
/// claim together.
pub open spec fn chunk_start(chunks: Seq<ServiceChunkCounts>, i: int) -> int
    decreases i,
{
    if i <= 0 {
        0
    } else {
        chunk_start(chunks, i - 1) + chunk_total(chunks[i - 1])
    }
}

/// The reference properties of `refs` whose carrier index lies in
/// `1..=carriers`, each with the blob index of its carrier.
pub open spec fn ref_targets(refs: Seq<(String, u32)>, carriers_start: int, carriers: int) -> Seq<(Seq<char>, int)>
    decreases refs.len(),
{
    if refs.len() == 0 {
        seq![]
    } else {
        let rest = ref_targets(refs.drop_last(), carriers_start, carriers);
        let idx = refs.last().1;
        if idx == 0 || idx > carriers {
            rest
        } else {
            rest.push((refs.last().0@, carriers_start + idx - 1))
        }
    }
}

/// The view of a layout's reference list.
pub open spec fn ref_views(refs: Seq<(String, usize)>) -> Seq<(Seq<char>, int)> {
    refs.map_values(|r: (String, usize)| (r.0@, r.1 as int))
}

/// The layout of chunk `i` of a payload.
pub open spec fn layout_matches(l: ServiceLayout, chunks: Seq<ServiceChunkCounts>, i: int) -> bool {
    let c = chunks[i];
    &&& l.children_start == chunk_start(chunks, i)
    &&& l.carriers_start == chunk_start(chunks, i) + c.child_count
    &&& l.end == chunk_start(chunks, i + 1)
    &&& ref_views(l.refs@) == ref_targets(c.refs@, chunk_start(chunks, i) + c.child_count, c.ref_target_count as int)
}

/// Whether every chunk up to `i` fits in a blob of `total` instances.
pub open spec fn fits_upto(chunks: Seq<ServiceChunkCounts>, total: int, i: int) -> bool {
    forall|j: int| 0 <= j < i ==> #[trigger] chunk_start(chunks, j + 1) <= total
}

proof fn lemma_chunk_start_step(chunks: Seq<ServiceChunkCounts>, i: int)
    requires
        0 <= i,
    ensures
        chunk_start(chunks, i + 1) == chunk_start(chunks, i) + chunk_total(chunks[i]),
        chunk_start(chunks, i) >= 0,
    decreases i,
{
    if i > 0 {
        lemma_chunk_start_step(chunks, i - 1);
    }
}

/// The reference properties of one chunk with their carriers' blob indices.
fn chunk_refs(refs: &Vec<(String, u32)>, carriers_start: usize, carriers: u32) -> (out: Vec<(String, usize)>)
    requires
        carriers_start + carriers <= usize::MAX,
    ensures
        ref_views(out@) == ref_targets(refs@, carriers_start as int, carriers as int),
{
    let mut out: Vec<(String, usize)> = Vec::new();
    let mut i: usize = 0;
    while i < refs.len()
        invariant
            i <= refs.len(),
            carriers_start + carriers <= usize::MAX,
            ref_views(out@) == ref_targets(refs@.take(i as int), carriers_start as int, carriers as int),
        decreases refs.len() - i,
    {
        let idx = refs[i].1;
        assert(refs@.take(i + 1).drop_last() =~= refs@.take(i as int));
        assert(refs@.take(i + 1).last() == refs@[i as int]);
        if idx != 0 && idx <= carriers {
            let name = string_from_chars(&chars_of(refs[i].0.as_str()));
            let at = carriers_start + (idx - 1) as usize;
            let ghost before = out@;
            out.push((name, at));
            assert(ref_views(out@) =~= ref_views(before).push((refs@[i as int].0@, carriers_start + idx - 1)));
        }
        i += 1;
    }
    assert(refs@.take(refs@.len() as int) =~= refs@);
    out
}

/// Checks the payload's chunks against a blob of `total` top-level
/// instances and lays them out: chunk after chunk, each claiming its
/// children and then its carriers. Fails on the first chunk that claims more
/// than remains, or when the chunks together claim fewer than `total`.
pub fn plan_service_layout(total: usize, chunks: &Vec<ServiceChunkCounts>) -> (res: Result<Vec<ServiceLayout>, ChunkLayoutError>)
    ensures
        match res {
            Ok(layouts) => {
                &&& fits_upto(chunks@, total as int, chunks.len() as int)
                &&& chunk_start(chunks@, chunks.len() as int) == total
                &&& layouts.len() == chunks.len()
                &&& forall|i: int| 0 <= i < chunks.len() ==> layout_matches(#[trigger] layouts@[i], chunks@, i)
            },
            Err(ChunkLayoutError::TooFewInstances { class_name, child_count, ref_target_count, remaining }) => {
                exists|i: int|
                    0 <= i < chunks.len() && fits_upto(chunks@, total as int, i) && #[trigger] chunk_start(chunks@, i + 1) > total
                        && class_name@ == chunks@[i].class_name@ && child_count == chunks@[i].child_count
                        && ref_target_count == chunks@[i].ref_target_count
                        && remaining == total - chunk_start(chunks@, i)
            },
            Err(ChunkLayoutError::CountMismatch { accounted, total: t }) => {
                &&& fits_upto(chunks@, total as int, chunks.len() as int)
                &&& accounted == chunk_start(chunks@, chunks.len() as int)
                &&& accounted != total
                &&& t == total
            },
        },
{
    let mut layouts: Vec<ServiceLayout> = Vec::new();
    let mut cursor: usize = 0;
    let mut i: usize = 0;
    while i < chunks.len()
        invariant
            i <= chunks.len(),
            layouts.len() == i,
            cursor == chunk_start(chunks@, i as int),
            cursor <= total,
            fits_upto(chunks@, total as int, i as int),
            forall|j: int| 0 <= j < i ==> layout_matches(#[trigger] layouts@[j], chunks@, j),
        decreases chunks.len() - i,
    {
        proof {
            lemma_chunk_start_step(chunks@, i as int);
        }
        let c = &chunks[i];
        let end64: u128 = cursor as u128 + c.child_count as u128 + c.ref_target_count as u128;
        if end64 > total as u128 {
            let name = string_from_chars(&chars_of(c.class_name.as_str()));
            return Err(ChunkLayoutError::TooFewInstances {
                class_name: name,
                child_count: c.child_count,
                ref_target_count: c.ref_target_count,
                remaining: total - cursor,
            });
        }
        let carriers_start = cursor + c.child_count as usize;
        let end = end64 as usize;
        let refs = chunk_refs(&c.refs, carriers_start, c.ref_target_count);
        let ghost before = layouts@;
        layouts.push(ServiceLayout { children_start: cursor, carriers_start, end, refs });
        proof {
            assert forall|j: int| 0 <= j < i + 1 implies layout_matches(#[trigger] layouts@[j], chunks@, j) by {
                if j < i {
                    assert(layouts@[j] == before[j]);
                }
            }
            assert forall|j: int| 0 <= j < i + 1 implies #[trigger] chunk_start(chunks@, j + 1) <= total by {
                if j < i {
                    assert(fits_upto(chunks@, total as int, i as int));
                }
            }
        }
        cursor = end;
        i += 1;
    }
    if cursor != total {
        return Err(ChunkLayoutError::CountMismatch { accounted: cursor, total });
    }
    Ok(layouts)
}

impl ChunkLayoutError {
    /// The error's message.
    pub fn message(&self) -> (res: String)
        ensures
            res@ == match self {
                ChunkLayoutError::TooFewInstances { class_name, child_count, ref_target_count, remaining } =>
                    "Service '"@ + class_name@ + "' claims "@ + decimal(*child_count as nat) + " children + "@
                        + decimal(*ref_target_count as nat) + " carriers but only "@ + decimal(*remaining as nat)
                        + " instances remain in blob"@,
                ChunkLayoutError::CountMismatch { accounted, total } =>
                    "Service chunks account for "@ + decimal(*accounted as nat) + " instances but rbxm blob contains "@
                        + decimal(*total as nat),
            },
    {
        let mut out: Vec<char> = Vec::new();
        match self {
            ChunkLayoutError::TooFewInstances { class_name, child_count, ref_target_count, remaining } => {
                push_str(&mut out, "Service '");
                push_str(&mut out, class_name.as_str());
                push_str(&mut out, "' claims ");
                push_decimal(&mut out, *child_count as u64);
                push_str(&mut out, " children + ");
                push_decimal(&mut out, *ref_target_count as u64);
                push_str(&mut out, " carriers but only ");
                push_decimal(&mut out, *remaining as u64);
                push_str(&mut out, " instances remain in blob");
            },
            ChunkLayoutError::CountMismatch { accounted, total } => {
                push_str(&mut out, "Service chunks account for ");
                push_decimal(&mut out, *accounted as u64);
                push_str(&mut out, " instances but rbxm blob contains ");
                push_decimal(&mut out, *total as u64);
            },
        }
        string_from_chars(&out)
    }
}

} // verus!
