//! What is captured of a subprocess, and which process group to reap.

use vstd::prelude::*;

use crate::text::decimal;
use crate::text;

verus! {

broadcast use vstd::string::group_string_axioms;

// ---------------------------------------------------------------------------
// Captured output
// ---------------------------------------------------------------------------

/// What was captured of a stream: its first bytes, and whether more came.
pub struct CaptureView {
    pub bytes: Seq<u8>,
    pub truncated: bool,
}

/// What is captured of a stream that held `total`, where at most `limit` bytes are kept.
pub open spec fn captured(total: Seq<u8>, limit: nat) -> CaptureView {
    CaptureView {
        bytes: if total.len() <= limit {
            total
        } else {
            total.take(limit as int)
        },
        truncated: total.len() > limit,
    }
}

/// What is captured once `chunk` came after what `c` says.
pub open spec fn after_chunk(c: CaptureView, chunk: Seq<u8>, limit: nat) -> CaptureView {
    let room = limit - c.bytes.len();
    CaptureView {
        bytes: if chunk.len() <= room {
            c.bytes + chunk
        } else {
            c.bytes + chunk.take(room)
        },
        truncated: c.truncated || chunk.len() > room,
    }
}

/// What is captured does not depend on the chunks the stream came in: the first bytes of all
/// of it, no more than the limit.
pub proof fn law_capture_is_a_prefix(total: Seq<u8>, chunk: Seq<u8>, limit: nat)
    ensures
        after_chunk(captured(total, limit), chunk, limit) == captured(total + chunk, limit),
        captured(total, limit).bytes.len() <= limit,
{
    let now = after_chunk(captured(total, limit), chunk, limit);
    assert(now.bytes =~= captured(total + chunk, limit).bytes);
}

/// The first bytes of a stream. What comes after the limit is drained and forgotten.
#[derive(Debug)]
pub struct CappedBuffer {
    limit: usize,
    bytes: Vec<u8>,
    truncated: bool,
}

impl View for CappedBuffer {
    type V = CaptureView;

    closed spec fn view(&self) -> CaptureView {
        CaptureView { bytes: self.bytes@, truncated: self.truncated }
    }
}

impl CappedBuffer {
    #[verifier::type_invariant]
    spec fn within(self) -> bool {
        self.bytes@.len() <= self.limit
    }

    pub closed spec fn limit(&self) -> usize {
        self.limit
    }

    /// An empty buffer that keeps at most `limit` bytes.
    pub fn new(limit: usize) -> (r: CappedBuffer)
        ensures
            r@ == captured(seq![], limit as nat),
            r.limit() == limit,
    {
        CappedBuffer { limit, bytes: Vec::new(), truncated: false }
    }

    /// Takes in what came next.
    pub fn push(&mut self, chunk: &Vec<u8>)
        ensures
            final(self)@ == after_chunk(old(self)@, chunk@, old(self).limit() as nat),
            final(self).limit() == old(self).limit(),
    {
        proof {
            use_type_invariant(&*self);
        }
        let limit: usize = self.limit;
        let mut bytes: Vec<u8> = Vec::new();
        std::mem::swap(&mut bytes, &mut self.bytes);
        let ghost before = bytes@;
        let room: usize = limit - bytes.len();
        let n: usize = if chunk.len() <= room {
            chunk.len()
        } else {
            room
        };
        let mut i: usize = 0;
        while i < n
            invariant
                i <= n <= chunk.len(),
                n <= limit - before.len(),
                bytes@ =~= before + chunk@.take(i as int),
            decreases n - i,
        {
            bytes.push(chunk[i]);
            i = i + 1;
        }
        assert(chunk@.take(chunk@.len() as int) =~= chunk@);
        self.bytes = bytes;
        if chunk.len() > room {
            self.truncated = true;
        }
    }

    /// What was captured.
    pub fn bytes(&self) -> (r: &Vec<u8>)
        ensures
            r@ == self@.bytes,
    {
        &self.bytes
    }

    /// Whether more came than was kept.
    pub fn truncated(&self) -> (r: bool)
        ensures
            r == self@.truncated,
    {
        self.truncated
    }

    /// What was captured, as text.
    pub fn text(&self) -> (r: String)
        ensures
            r@ == marked_text(self@, self.limit() as nat),
    {
        lossy_with_marker(&self.bytes, self.truncated, self.limit)
    }
}

/// The text that bytes make, with a replacement character for what is not UTF-8.
pub uninterp spec fn lossy_text(bytes: Seq<u8>) -> Seq<char>;

/// `String::from_utf8_lossy`: the text that the bytes encode; where they are not UTF-8, the
/// parts that are not come out as U+FFFD, and what it then gives is left to the name.
#[verifier::external_body]
fn from_utf8_lossy(bytes: &Vec<u8>) -> (r: String)
    ensures
        r@ == lossy_text(bytes@),
        vstd::utf8::valid_utf8(bytes@) ==> vstd::utf8::encode_utf8(r@) == bytes@,
{
    String::from_utf8_lossy(bytes).into_owned()
}

/// What stands behind output that was cut off after `limit` bytes.
pub open spec fn truncation_marker(limit: nat) -> Seq<char> {
    "\n[output truncated at "@ + text::dec(limit) + " bytes]"@
}

/// The text of what was captured, marked where it was cut off.
pub open spec fn marked_text(c: CaptureView, limit: nat) -> Seq<char> {
    if c.truncated {
        lossy_text(c.bytes) + truncation_marker(limit)
    } else {
        lossy_text(c.bytes)
    }
}

/// The text of captured bytes, with a marker behind it where they were cut off after `limit`.
pub fn lossy_with_marker(bytes: &Vec<u8>, truncated: bool, limit: usize) -> (r: String)
    ensures
        r@ == marked_text(CaptureView { bytes: bytes@, truncated }, limit as nat),
{
    let mut s = from_utf8_lossy(bytes);
    if truncated {
        let ghost start = s@;
        s.append("\n[output truncated at ");
        s.append(decimal(limit as u128).as_str());
        s.append(" bytes]");
        assert(s@ =~= start + truncation_marker(limit as nat));
    }
    s
}

// ---------------------------------------------------------------------------
// Process groups
// ---------------------------------------------------------------------------

/// The process group to reap for the leader `pid`. Group 0 is the caller's own, so an unknown
/// process is never signalled.
pub open spec fn group_of(pid: u32) -> Option<u32> {
    if pid == 0 {
        None
    } else {
        Some(pid)
    }
}

/// The process group to reap for the leader `pid`.
pub fn group_to_reap(pid: u32) -> (r: Option<u32>)
    ensures
        r == group_of(pid),
{
    if pid == 0 {
        None
    } else {
        Some(pid)
    }
}

/// Says which process group must be reaped if it is dropped while armed.
#[derive(Debug)]
pub struct KillGroupOnDrop {
    pid: u32,
    armed: bool,
}

impl View for KillGroupOnDrop {
    type V = Option<u32>;

    /// The group that a drop reaps.
    closed spec fn view(&self) -> Option<u32> {
        if self.armed {
            group_of(self.pid)
        } else {
            None
        }
    }
}

impl KillGroupOnDrop {
    /// An armed guard for the group that `pid` leads.
    pub fn new(pid: u32) -> (r: KillGroupOnDrop)
        ensures
            r@ == group_of(pid),
    {
        KillGroupOnDrop { pid, armed: true }
    }

    /// Hands the reaping over to the caller, or notes that the process has exited.
    pub fn disarm(&mut self)
        ensures
            final(self)@ is None,
    {
        self.armed = false;
    }

    /// The group that a drop must reap.
    pub fn target(&self) -> (r: Option<u32>)
        ensures
            r == self@,
    {
        if self.armed {
            group_to_reap(self.pid)
        } else {
            None
        }
    }
}

// ---------------------------------------------------------------------------
// Laws
// ---------------------------------------------------------------------------

/// Up to the limit everything is kept and nothing is marked. Beyond it the first bytes are kept, as
/// many as the limit allows, and the text says where it was cut off.
pub proof fn law_only_what_is_cut_off_is_marked(total: Seq<u8>, limit: nat)
    ensures
        total.len() <= limit ==> captured(total, limit).bytes == total && marked_text(
            captured(total, limit),
            limit,
        ) == lossy_text(total),
        total.len() > limit ==> captured(total, limit).bytes.len() == limit && captured(
            total,
            limit,
        ).bytes.is_prefix_of(total) && marked_text(captured(total, limit), limit) == lossy_text(
            total.take(limit as int),
        ) + "\n[output truncated at "@ + text::dec(limit) + " bytes]"@,
{
    if total.len() > limit {
        assert(captured(total, limit).bytes.is_prefix_of(total));
        let kept = lossy_text(total.take(limit as int));
        assert(kept + ("\n[output truncated at "@ + text::dec(limit) + " bytes]"@) =~= kept
            + "\n[output truncated at "@ + text::dec(limit) + " bytes]"@);
    }
}

/// The group of a known process is its own, and none is reaped for an unknown one: the caller's own
/// group is never named.
pub proof fn law_only_a_known_group_is_reaped(pid: u32)
    ensures
        pid > 0 ==> group_of(pid) == Some(pid),
        group_of(pid) != Some(0u32),
        group_of(0) is None,
{
}

} // verus!
