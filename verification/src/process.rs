//! The unified memory-access dispatch.
//!
//! A `Process` is one of the byte-addressable targets the tool can
//! inspect: a live process opened through the operating system, a
//! crash-dump snapshot, or a concatenated dump file.  Every byte-level
//! request is routed through one active `Process` value; the backends
//! never call each other.  The extension-backed target delegates its
//! operations to native code and is composed around this type by the
//! host program, with its lifecycle pinned by `crate::plugin`.

use crate::codec::DumpError;
use crate::reader::{mmap_view, spec_memory_lookup, spec_open_error, ConcatenatedDumpReader};
use crate::snapshot::{
    contiguous, merge_segments, segment_models, spec_merge, Segment, SegmentModel,
};
use memflex::external::OwnedProcess;
use memmap2::Mmap;
use vstd::prelude::*;
use vstd::slice::slice_index_get;

verus! {

/// `memflex::external::OwnedProcess` as an opaque process handle.
#[verifier::external_type_specification]
#[verifier::external_body]
pub struct ExOwnedProcess(OwnedProcess);

/// `memflex::MfError` as an opaque error value.
#[verifier::external_type_specification]
#[verifier::external_body]
pub struct ExMfError(memflex::MfError);

/// Relies on `memflex::external::find_process_by_id`: opens the target
/// process by id, or reports that it cannot be found.
#[verifier::external_body]
fn find_process(pid: u32) -> Result<OwnedProcess, memflex::MfError> {
    memflex::external::find_process_by_id(pid)
}

/// Relies on `memflex::external::OwnedProcess::maps`: the target's mapped
/// regions as the system lists them, each converted to its range and
/// permission flags.
#[verifier::external_body]
fn process_maps(p: &OwnedProcess) -> Result<Vec<MemoryRegion>, memflex::MfError> {
    Ok(
        p.maps()?.into_iter().map(
            |r| MemoryRegion {
                from: r.from,
                to: r.to,
                read: r.prot.read(),
                write: r.prot.write(),
                execute: r.prot.execute(),
            },
        ).collect(),
    )
}

/// Relies on `memflex::external::OwnedProcess::read_buf`: reads target
/// memory into the buffer, returning how many bytes arrived; the buffer
/// keeps its length either way, and never more than it holds is read.
#[verifier::external_body]
fn process_read(p: &OwnedProcess, address: usize, buf: &mut Vec<u8>) -> (r: Result<
    usize,
    memflex::MfError,
>)
    ensures
        final(buf)@.len() == old(buf)@.len(),
        r matches Ok(n) ==> n <= old(buf)@.len(),
{
    p.read_buf(address, buf.as_mut_slice())
}

/// Relies on `memflex::external::OwnedProcess::write_buf`: writes the
/// buffer into target memory, returning how many bytes went out, never
/// more than the buffer holds.
#[verifier::external_body]
fn process_write(p: &OwnedProcess, address: usize, buf: &[u8]) -> (r: Result<
    usize,
    memflex::MfError,
>)
    ensures
        r matches Ok(n) ==> n <= buf@.len(),
{
    p.write_buf(address, buf)
}

/// Relies on `memflex::external::OwnedProcess::name`: the target
/// executable's file name, if the target still exists.
#[verifier::external_body]
fn process_name(p: &OwnedProcess) -> Result<String, memflex::MfError> {
    p.name()
}

/// One mapped range of the live address space, with the permission flags
/// seen at attach time.
#[derive(Debug, Clone, Copy, PartialEq, Eq, Structural)]
pub struct MemoryRegion {
    /// First address of the range.
    pub from: usize,
    /// Last address of the range.
    pub to: usize,
    /// The range was readable at attach time.
    pub read: bool,
    /// The range was writable at attach time.
    pub write: bool,
    /// The range was executable at attach time.
    pub execute: bool,
}

/// Why attaching to a target failed; nothing is installed when it does.
#[derive(Debug, Clone, Copy, PartialEq, Eq, Structural)]
pub enum AccessError {
    /// The target process does not exist or could not be opened.
    ProcessUnavailable,
    /// The target's mapped regions could not be listed.
    RegionsUnavailable,
    /// The target's name could not be read.
    NameUnavailable,
}

/// How much of a requested read was served.
#[derive(Debug, Clone, Copy, PartialEq, Eq, Structural)]
pub enum ReadOutcome {
    /// The whole buffer was filled.
    Complete,
    /// Only this many leading bytes were filled; the rest of the buffer
    /// keeps its prior contents.
    Partial(usize),
    /// Nothing was read.
    Unreadable,
}

/// How much of a requested write went through.
#[derive(Debug, Clone, Copy, PartialEq, Eq, Structural)]
pub enum WriteOutcome {
    /// The whole buffer was written.
    Complete,
    /// Only this many leading bytes were written.
    Partial(usize),
    /// The backend is read-only; nothing was written.
    Unsupported,
    /// The target rejected the write; nothing is known to have changed.
    Failed,
}

/// A live target: the opened handle, its id, and the regions captured
/// once at attach time.  The region list is not refreshed afterwards, a
/// documented staleness window.
pub struct LiveBackend {
    handle: OwnedProcess,
    pid: u32,
    regions: Vec<MemoryRegion>,
}

impl LiveBackend {
    /// The process id captured at attach time.
    pub closed spec fn spec_pid(self) -> u32 {
        self.pid
    }

    /// The regions captured at attach time.
    pub closed spec fn spec_regions(self) -> Seq<MemoryRegion> {
        self.regions@
    }
}

/// Some captured region covers `address` and was readable.
pub open spec fn spec_region_readable(regions: Seq<MemoryRegion>, address: int) -> bool {
    exists|k: int|
        0 <= k < regions.len() && (#[trigger] regions[k]).from <= address && address
            <= regions[k].to && regions[k].read
}

/// A segment's span covers `address`.
pub open spec fn spec_segment_contains(s: SegmentModel, address: int) -> bool {
    s.address <= address < s.address + s.data.len()
}

/// The first segment, front to back, whose span covers `address`.
pub open spec fn spec_find_segment(segs: Seq<SegmentModel>, address: int) -> Option<SegmentModel>
    decreases segs.len(),
{
    if segs.len() == 0 {
        None
    } else if spec_segment_contains(segs[0], address) {
        Some(segs[0])
    } else {
        spec_find_segment(segs.drop_first(), address)
    }
}

/// If no segment before `i` covers `address`, the search over the whole
/// list gives whatever the search from `i` on gives.
proof fn lemma_find_segment_skip(segs: Seq<SegmentModel>, address: int, i: int)
    requires
        0 <= i <= segs.len(),
        forall|j: int| 0 <= j < i ==> !spec_segment_contains(#[trigger] segs[j], address),
    ensures
        spec_find_segment(segs, address) == spec_find_segment(segs.skip(i), address),
    decreases i,
{
    if i == 0 {
        assert(segs.skip(0) =~= segs);
    } else {
        lemma_find_segment_skip(segs, address, i - 1);
        let t = segs.skip(i - 1);
        assert(t[0] == segs[i - 1]);
        assert(!spec_segment_contains(t[0], address));
        assert(spec_find_segment(t, address) == spec_find_segment(t.drop_first(), address));
        assert(t.drop_first() =~= segs.skip(i));
    }
}

/// The closed set of memory targets this layer serves directly.
pub enum Process {
    /// A live process opened through the operating system.
    Internal(LiveBackend),
    /// A crash-dump snapshot, reduced to merged read-only segments.
    Minidump {
        /// The merged segments, read-only.
        segments: Vec<Segment>,
    },
    /// A concatenated dump file served from its mapping.
    ConcatenatedDump {
        /// The open reader over the mapped file.
        reader: ConcatenatedDumpReader,
    },
}

impl Process {
    /// The dispatch value is well formed: a dump-backed target carries a
    /// reader whose own invariant holds.
    pub open spec fn wf(self) -> bool {
        match self {
            Process::ConcatenatedDump { reader } => reader.wf(),
            _ => true,
        }
    }

    /// Attaches to a running process: opens it by id and captures its
    /// mapped regions once.  On any failure nothing is installed, and the
    /// error names which of the two steps the system refused.
    pub fn attach(pid: u32) -> (r: Result<Process, AccessError>)
        ensures
            r matches Ok(p) ==> p.wf() && (p matches Process::Internal(b) && b.spec_pid() == pid),
            r matches Err(e) ==> e == AccessError::ProcessUnavailable || e
                == AccessError::RegionsUnavailable,
    {
        let handle = match find_process(pid) {
            Ok(h) => h,
            Err(_) => {
                return Err(AccessError::ProcessUnavailable);
            },
        };
        let regions = match process_maps(&handle) {
            Ok(m) => m,
            Err(_) => {
                return Err(AccessError::RegionsUnavailable);
            },
        };
        Ok(Process::Internal(LiveBackend { handle, pid, regions }))
    }

    /// Builds the snapshot target from the regions recovered out of a
    /// crash-dump container, merging byte-contiguous neighbors.
    pub fn minidump(regions: Vec<Segment>) -> (p: Process)
        ensures
            p.wf(),
            p matches Process::Minidump { segments } && segment_models(segments@) == spec_merge(
                segment_models(regions@),
            ),
    {
        let segments = merge_segments(regions);
        Process::Minidump { segments }
    }

    /// Builds the dump-file target by opening a mapping of the file.
    pub fn concatenated_dump(mmap: Mmap) -> (r: Result<Process, DumpError>)
        ensures
            match r {
                Ok(p) => {
                    &&& p.wf()
                    &&& p matches Process::ConcatenatedDump { reader } && reader.data()
                        == mmap_view(mmap)
                    &&& spec_open_error(mmap_view(mmap)) is None
                },
                Err(e) => spec_open_error(mmap_view(mmap)) == Some(e),
            },
    {
        let reader = ConcatenatedDumpReader::open(mmap)?;
        Ok(Process::ConcatenatedDump { reader })
    }

    /// The identifying integer of the target: the process id for a live
    /// target, and 0 for the two recorded ones.
    pub fn id(&self) -> (r: u32)
        ensures
            match self {
                Process::Internal(b) => r == b.spec_pid(),
                Process::Minidump { .. } => r == 0,
                Process::ConcatenatedDump { .. } => r == 0,
            },
    {
        match self {
            Process::Internal(b) => b.pid,
            Process::Minidump { .. } => 0,
            Process::ConcatenatedDump { .. } => 0,
        }
    }

    /// The target's display name.  For a live target the name is read
    /// from the system and can fail if the process is gone; the recorded
    /// targets have fixed names.
    pub fn name(&self) -> (r: Result<String, AccessError>)
        ensures
            match self {
                Process::Internal(_) => r is Ok || r == Err::<String, AccessError>(
                    AccessError::NameUnavailable,
                ),
                Process::Minidump { .. } => r matches Ok(s) && s@ == "[minidump]"@,
                Process::ConcatenatedDump { .. } => r matches Ok(s) && s@
                    == "[concatenated dump]"@,
            },
    {
        match self {
            Process::Internal(b) => match process_name(&b.handle) {
                Ok(n) => Ok(n),
                Err(_) => Err(AccessError::NameUnavailable),
            },
            Process::Minidump { .. } => Ok("[minidump]".to_owned()),
            Process::ConcatenatedDump { .. } => Ok("[concatenated dump]".to_owned()),
        }
    }

    /// Whether a one-byte read at `address` can be served: a readable
    /// captured region for a live target, a containing segment for a
    /// snapshot, a containing chunk for a dump.  For the live target the
    /// answer rests on the regions captured at attach time.
    pub fn can_read(&self, address: usize) -> (r: bool)
        requires
            self.wf(),
        ensures
            match self {
                Process::Internal(b) => r == spec_region_readable(b.spec_regions(), address as int),
                Process::Minidump { segments } => r == (spec_find_segment(
                    segment_models(segments@),
                    address as int,
                ) is Some),
                Process::ConcatenatedDump { reader } => r == (spec_memory_lookup(
                    reader.entries(),
                    address as u64,
                ) is Some),
            },
    {
        match self {
            Process::Internal(b) => {
                let mut k: usize = 0;
                while k < b.regions.len()
                    invariant
                        *self == Process::Internal(*b),
                        k <= b.regions@.len(),
                        forall|j: int|
                            0 <= j < k ==> !((#[trigger] b.regions@[j]).from <= address && address
                                <= b.regions@[j].to && b.regions@[j].read),
                    decreases b.regions@.len() - k,
                {
                    let reg = b.regions[k];
                    if reg.from <= address && address <= reg.to && reg.read {
                        proof {
                            let rs = b.spec_regions();
                            assert(rs[k as int].from <= address && address <= rs[k as int].to
                                && rs[k as int].read);
                            assert(spec_region_readable(rs, address as int));
                        }
                        return true;
                    }
                    k = k + 1;
                }
                false
            },
            Process::Minidump { segments } => {
                let mut k: usize = 0;
                while k < segments.len()
                    invariant
                        *self == (Process::Minidump { segments: *segments }),
                        k <= segments@.len(),
                        forall|j: int|
                            0 <= j < k ==> !spec_segment_contains(
                                #[trigger] segment_models(segments@)[j],
                                address as int,
                            ),
                    decreases segments@.len() - k,
                {
                    let a64 = address as u64;
                    if a64 >= segments[k].address && a64 - segments[k].address < (
                    segments[k].data.len() as u64) {
                        proof {
                            let models = segment_models(segments@);
                            assert(models[k as int] == segments@[k as int]@);
                            assert(spec_segment_contains(models[k as int], address as int));
                            lemma_find_segment_skip(models, address as int, k as int);
                            assert(models.skip(k as int)[0] == models[k as int]);
                            assert(spec_find_segment(models.skip(k as int), address as int)
                                == Some(models[k as int]));
                        }
                        return true;
                    }
                    k = k + 1;
                }
                proof {
                    lemma_find_segment_skip(
                        segment_models(segments@),
                        address as int,
                        segments@.len() as int,
                    );
                    assert(segment_models(segments@).skip(segments@.len() as int) =~= Seq::<
                        SegmentModel,
                    >::empty());
                }
                false
            },
            Process::ConcatenatedDump { reader } => reader.get_memory_slice(
                address as u64,
                1,
            ).is_some(),
        }
    }

    /// Reads up to the buffer's length from `address`.  A snapshot or
    /// dump target serves the read from its captured bytes, clamped to
    /// the containing span and never crossing into a neighboring one;
    /// bytes the read does not reach keep their prior contents.  A live
    /// target reads through the operating system, whose outcome this
    /// layer reports but cannot predict.
    pub fn read(&self, address: usize, buf: &mut Vec<u8>) -> (r: ReadOutcome)
        requires
            self.wf(),
        ensures
            final(buf)@.len() == old(buf)@.len(),
            match self {
                Process::Internal(_) => (r matches ReadOutcome::Partial(n) ==> n < old(
                    buf,
                )@.len()),
                Process::Minidump { segments } => match spec_find_segment(
                    segment_models(segments@),
                    address as int,
                ) {
                    Some(s) => {
                        let base = address - s.address;
                        let n = if old(buf)@.len() <= s.data.len() - base {
                            old(buf)@.len() as int
                        } else {
                            s.data.len() - base
                        };
                        final(buf)@ == s.data.subrange(base, base + n) + old(buf)@.skip(n) && r
                            == (if n == old(buf)@.len() {
                            ReadOutcome::Complete
                        } else {
                            ReadOutcome::Partial(n as usize)
                        })
                    },
                    None => final(buf)@ == old(buf)@ && r == ReadOutcome::Unreadable,
                },
                Process::ConcatenatedDump { reader } => match spec_memory_lookup(
                    reader.entries(),
                    address as u64,
                ) {
                    Some(e) => {
                        let start = e.file_offset + (address as u64 - e.address);
                        let n = if old(buf)@.len() <= e.length - (address as u64 - e.address) {
                            old(buf)@.len() as int
                        } else {
                            e.length - (address as u64 - e.address)
                        };
                        final(buf)@ == reader.data().subrange(start, start + n) + old(buf)@.skip(n)
                            && r == (if n == old(buf)@.len() {
                            ReadOutcome::Complete
                        } else {
                            ReadOutcome::Partial(n as usize)
                        })
                    },
                    None => final(buf)@ == old(buf)@ && r == ReadOutcome::Unreadable,
                },
            },
    {
        match self {
            Process::Internal(b) => {
                let requested = buf.len();
                match process_read(&b.handle, address, buf) {
                    Ok(n) => if n == requested {
                        ReadOutcome::Complete
                    } else {
                        ReadOutcome::Partial(n)
                    },
                    Err(_) => ReadOutcome::Unreadable,
                }
            },
            Process::Minidump { segments } => {
                let len0 = buf.len();
                let mut k: usize = 0;
                while k < segments.len()
                    invariant
                        *self == (Process::Minidump { segments: *segments }),
                        buf@ == old(buf)@,
                        len0 == buf@.len(),
                        k <= segments@.len(),
                        forall|j: int|
                            0 <= j < k ==> !spec_segment_contains(
                                #[trigger] segment_models(segments@)[j],
                                address as int,
                            ),
                    decreases segments@.len() - k,
                {
                    let a64 = address as u64;
                    if a64 >= segments[k].address && a64 - segments[k].address < (
                    segments[k].data.len() as u64) {
                        let ghost models = segment_models(segments@);
                        proof {
                            assert(models[k as int] == segments@[k as int]@);
                            assert(spec_segment_contains(models[k as int], address as int));
                            lemma_find_segment_skip(models, address as int, k as int);
                            assert(models.skip(k as int)[0] == models[k as int]);
                            assert(spec_find_segment(models, address as int) == Some(
                                models[k as int],
                            ));
                        }
                        let base = (a64 - segments[k].address) as usize;
                        let avail = segments[k].data.len() - base;
                        let n = if buf.len() <= avail {
                            buf.len()
                        } else {
                            avail
                        };
                        let mut out: Vec<u8> = Vec::new();
                        let mut t: usize = 0;
                        while t < n
                            invariant
                                *self == (Process::Minidump { segments: *segments }),
                                k < segments@.len(),
                                t <= n,
                                base + n <= segments@[k as int].data@.len(),
                                segments@[k as int].data@.len() <= usize::MAX,
                                out@ == segments@[k as int].data@.subrange(
                                    base as int,
                                    base + t,
                                ),
                            decreases n - t,
                        {
                            out.push(segments[k].data[base + t]);
                            proof {
                                assert(segments@[k as int].data@.subrange(base as int, base + t + 1)
                                    =~= segments@[k as int].data@.subrange(
                                    base as int,
                                    base + t,
                                ).push(segments@[k as int].data@[base + t]));
                            }
                            t = t + 1;
                        }
                        proof {
                            assert(out@ =~= segments@[k as int].data@.subrange(
                                base as int,
                                base + n,
                            ) + buf@.subrange(n as int, n as int));
                        }
                        let mut t2: usize = n;
                        while t2 < buf.len()
                            invariant
                                *self == (Process::Minidump { segments: *segments }),
                                buf@ == old(buf)@,
                                k < segments@.len(),
                                n <= t2 <= buf@.len(),
                                base + n <= segments@[k as int].data@.len(),
                                out@ == segments@[k as int].data@.subrange(base as int, base + n)
                                    + buf@.subrange(n as int, t2 as int),
                            decreases buf@.len() - t2,
                        {
                            out.push(buf[t2]);
                            proof {
                                assert(buf@.subrange(n as int, t2 + 1) =~= buf@.subrange(
                                    n as int,
                                    t2 as int,
                                ).push(buf@[t2 as int]));
                            }
                            t2 = t2 + 1;
                        }
                        *buf = out;
                        proof {
                            assert(old(buf)@.subrange(n as int, old(buf)@.len() as int) =~= old(
                                buf,
                            )@.skip(n as int));
                        }
                        if n == len0 {
                            return ReadOutcome::Complete;
                        } else {
                            return ReadOutcome::Partial(n);
                        }
                    }
                    k = k + 1;
                }
                proof {
                    lemma_find_segment_skip(
                        segment_models(segments@),
                        address as int,
                        segments@.len() as int,
                    );
                    assert(segment_models(segments@).skip(segments@.len() as int) =~= Seq::<
                        SegmentModel,
                    >::empty());
                }
                ReadOutcome::Unreadable
            },
            Process::ConcatenatedDump { reader } => {
                let len0 = buf.len();
                match reader.get_memory_slice(address as u64, len0) {
                    Some(d) => {
                        let n = d.len();
                        let ghost dv = d@;
                        proof {
                            crate::reader::lemma_memory_lookup_props(
                                reader.entries(),
                                address as u64,
                            );
                            assert(spec_memory_lookup(reader.entries(), address as u64) is Some);
                            let e = choose|e: crate::codec::ChunkEntry|
                                spec_memory_lookup(reader.entries(), address as u64) == Some(e);
                            assert(reader.entries().contains(e));
                            let idx = choose|idx: int|
                                0 <= idx < reader.entries().len() && reader.entries()[idx] == e;
                            assert(reader.entries()[idx].file_offset
                                + reader.entries()[idx].length <= crate::reader::spec_trailer_offset(
                                reader.data(),
                            ));
                            assert(n <= len0);
                        }
                        let mut out: Vec<u8> = Vec::new();
                        let mut t: usize = 0;
                        while t < n
                            invariant
                                t <= n,
                                n == dv.len(),
                                dv == d@,
                                out@ == dv.subrange(0, t as int),
                            decreases n - t,
                        {
                            out.push(*slice_index_get(d, t));
                            proof {
                                assert(dv.subrange(0, t + 1) =~= dv.subrange(0, t as int).push(
                                    dv[t as int],
                                ));
                            }
                            t = t + 1;
                        }
                        proof {
                            assert(out@ =~= dv + buf@.subrange(n as int, n as int));
                        }
                        let mut t2: usize = n;
                        while t2 < buf.len()
                            invariant
                                buf@ == old(buf)@,
                                len0 == buf@.len(),
                                n <= t2 <= buf@.len(),
                                n == dv.len(),
                                dv == d@,
                                out@ == dv + buf@.subrange(n as int, t2 as int),
                            decreases buf@.len() - t2,
                        {
                            out.push(buf[t2]);
                            proof {
                                assert(buf@.subrange(n as int, t2 + 1) =~= buf@.subrange(
                                    n as int,
                                    t2 as int,
                                ).push(buf@[t2 as int]));
                            }
                            t2 = t2 + 1;
                        }
                        proof {
                            assert(dv.subrange(0, n as int) =~= dv);
                        }
                        *buf = out;
                        proof {
                            assert(old(buf)@.subrange(n as int, old(buf)@.len() as int) =~= old(
                                buf,
                            )@.skip(n as int));
                        }
                        if n == len0 {
                            ReadOutcome::Complete
                        } else {
                            ReadOutcome::Partial(n)
                        }
                    },
                    None => ReadOutcome::Unreadable,
                }
            },
        }
    }

    /// Writes the buffer to `address`.  The two recorded targets are
    /// read-only and refuse the write; a live target writes through the
    /// operating system and reports the outcome: whole, a strict prefix,
    /// or rejected — never read-only refusal.
    pub fn write(&self, address: usize, buf: &[u8]) -> (r: WriteOutcome)
        ensures
            match self {
                Process::Internal(_) => ({
                    &&& r is Complete || r matches WriteOutcome::Partial(_) || r
                        == WriteOutcome::Failed
                    &&& r matches WriteOutcome::Partial(n) ==> n < buf@.len()
                }),
                Process::Minidump { .. } => r == WriteOutcome::Unsupported,
                Process::ConcatenatedDump { .. } => r == WriteOutcome::Unsupported,
            },
    {
        match self {
            Process::Internal(b) => match process_write(&b.handle, address, buf) {
                Ok(n) => if n == buf.len() {
                    WriteOutcome::Complete
                } else {
                    WriteOutcome::Partial(n)
                },
                Err(_) => WriteOutcome::Failed,
            },
            Process::Minidump { .. } => WriteOutcome::Unsupported,
            Process::ConcatenatedDump { .. } => WriteOutcome::Unsupported,
        }
    }
}

/// Snapshot merge correctness, read side: after merging, one segment
/// serves a read that spans the old boundary of two byte-contiguous
/// regions, so the read succeeds as a single copy; with a gap the first
/// region serves it alone, truncating at its end.
pub proof fn lemma_merged_boundary_lookup(a: SegmentModel, b: SegmentModel, address: int)
    requires
        a.address <= address,
    ensures
        contiguous(a, b) && address < a.address + a.data.len() + b.data.len()
            ==> spec_find_segment(spec_merge(seq![a, b]), address) == Some(
            SegmentModel { address: a.address, data: a.data + b.data },
        ),
        !contiguous(a, b) && address < a.address + a.data.len() ==> spec_find_segment(
            spec_merge(seq![a, b]),
            address,
        ) == Some(a),
{
    if contiguous(a, b) && address < a.address + a.data.len() + b.data.len() {
        crate::snapshot::lemma_merge_contiguous(a, b);
        let m = SegmentModel { address: a.address, data: a.data + b.data };
        assert(seq![m][0] == m);
        assert(spec_segment_contains(m, address));
    }
    if !contiguous(a, b) && address < a.address + a.data.len() {
        crate::snapshot::lemma_merge_gap(a, b);
        assert(seq![a, b][0] == a);
        assert(spec_segment_contains(a, address));
    }
}

} // verus!
