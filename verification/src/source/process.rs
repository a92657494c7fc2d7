//! Process attribution from DRM fdinfo and KFD.
//!
//! Two independent accounting systems are reported without reconciliation:
//! DRM fdinfo (associated by `drm-pdev`, memory from the `drm-resident-*`
//! keys, KiB × 1024) and KFD (membership plus `vram_<gpuid>` bytes). No
//! utilization or engine-time claim is produced. Command lines are never
//! read. Directory walks happen outside; every decision about what was read
//! is made here.
use vstd::prelude::*;
use crate::model::{PciBdf, is_bdf_text, lowercase};
use crate::source::Reading;
use crate::text::{
    chars_of, trimmed, trim, parse_u64, parse_u64_spec, string_of, extend_chars, split_lines,
    lines_of, split_char, pieces, lemma_pieces_nonempty, ends_with, begins_with, has_suffix,
    has_prefix, slice_chars, contains_text, contains_chars, is_hex_digit, char_is_hex_digit,
    is_control, char_is_control, first_index, lemma_first_index_bound,
};

verus! {

/// One attributed process row for a single (PID, GPU) association. It has no
/// utilization or engine-time field: none is claimed.
#[derive(Debug, PartialEq, Eq)]
pub struct ProcessRow {
    pub pid: u32,
    /// Permitted process name (`comm`), or the exact reason it is missing.
    pub name: Reading<String>,
    /// PCI address of the associated GPU, when attribution resolved one.
    pub bdf: Option<PciBdf>,
    /// DRM fdinfo resident VRAM, bytes (KiB × 1024).
    pub fdinfo_vram_bytes: Reading<u64>,
    /// DRM fdinfo resident GTT, bytes (KiB × 1024).
    pub fdinfo_gtt_bytes: Reading<u64>,
    /// KFD `vram_<gpuid>` accounting, bytes; never summed with fdinfo.
    pub kfd_vram_bytes: Reading<u64>,
    /// Container identity derived from the cgroup path, when present.
    pub container: Option<String>,
}

/// Process source state: the filesystem root the scan walks.
pub struct ProcessSource {
    root: std::path::PathBuf,
}

impl ProcessSource {
    pub closed spec fn root_path(&self) -> std::path::PathBuf {
        self.root
    }

    /// Creates the adapter over an explicit root (`/` in production).
    pub fn new(root: std::path::PathBuf) -> (r: Self)
        ensures
            r.root_path() == root,
    {
        ProcessSource { root }
    }

    /// The filesystem root.
    pub fn root(&self) -> (r: &std::path::PathBuf)
        ensures
            *r == self.root_path(),
    {
        &self.root
    }
}

// ---------------------------------------------------------------------------
// Scan status
// ---------------------------------------------------------------------------

/// Merged availability of two partial scans: permission limits first, then
/// errors, then absence; both available is available.
pub open spec fn merged(left: Reading<()>, right: Reading<()>) -> Reading<()> {
    if left is PermissionDenied || right is PermissionDenied {
        Reading::PermissionDenied
    } else if left is Error || right is Error {
        Reading::Error
    } else if left is Absent || right is Absent {
        Reading::Absent
    } else if left is Value && right is Value {
        Reading::Value(())
    } else {
        Reading::Error
    }
}

/// Merges two scan availabilities.
pub fn merge_status(left: Reading<()>, right: Reading<()>) -> (r: Reading<()>)
    ensures
        r == merged(left, right),
{
    match (left, right) {
        (Reading::PermissionDenied, _) | (_, Reading::PermissionDenied) => Reading::PermissionDenied,
        (Reading::Error, _) | (_, Reading::Error) => Reading::Error,
        (Reading::Absent, _) | (_, Reading::Absent) => Reading::Absent,
        (Reading::Value(()), Reading::Value(())) => Reading::Value(()),
        _ => Reading::Error,
    }
}

/// The fdinfo scan's availability from its per-process statuses: any
/// permission limit, else any error, else any absence, else available when
/// anything was scanned, else absent.
pub open spec fn fdinfo_summary(statuses: Seq<Reading<()>>) -> Reading<()> {
    if exists|i: int| 0 <= i < statuses.len() && #[trigger] statuses[i] is PermissionDenied {
        Reading::PermissionDenied
    } else if exists|i: int| 0 <= i < statuses.len() && #[trigger] statuses[i] is Error {
        Reading::Error
    } else if exists|i: int| 0 <= i < statuses.len() && #[trigger] statuses[i] is Absent {
        Reading::Absent
    } else if exists|i: int| 0 <= i < statuses.len() && #[trigger] statuses[i] is Value {
        Reading::Value(())
    } else {
        Reading::Absent
    }
}

/// Summarizes the fdinfo scan.
pub fn fdinfo_status(statuses: &Vec<Reading<()>>) -> (r: Reading<()>)
    ensures
        r == fdinfo_summary(statuses@),
{
    let mut denied = false;
    let mut error = false;
    let mut absent = false;
    let mut value = false;
    let mut i: usize = 0;
    while i < statuses.len()
        invariant
            i <= statuses@.len(),
            denied == exists|j: int| 0 <= j < i && #[trigger] statuses@[j] is PermissionDenied,
            error == exists|j: int| 0 <= j < i && #[trigger] statuses@[j] is Error,
            absent == exists|j: int| 0 <= j < i && #[trigger] statuses@[j] is Absent,
            value == exists|j: int| 0 <= j < i && #[trigger] statuses@[j] is Value,
        decreases statuses.len() - i,
    {
        match statuses[i] {
            Reading::PermissionDenied => denied = true,
            Reading::Error => error = true,
            Reading::Absent => absent = true,
            Reading::Value(()) => value = true,
            _ => {},
        }
        i = i + 1;
    }
    if denied {
        Reading::PermissionDenied
    } else if error {
        Reading::Error
    } else if absent {
        Reading::Absent
    } else if value {
        Reading::Value(())
    } else {
        Reading::Absent
    }
}

// ---------------------------------------------------------------------------
// Memory quantities
// ---------------------------------------------------------------------------

/// An fdinfo memory quantity in KiB: a trimmed number with an optional
/// `KiB`, `MiB`, or `GiB` unit (unsuffixed is KiB), rejected when the number
/// is malformed or the KiB count does not fit in 64 bits.
pub open spec fn kib_value(s: Seq<char>) -> Option<u64> {
    let v = trim(s);
    let (number, factor): (Seq<char>, int) = if ends_with(v, "KiB"@) {
        (trim(v.take(v.len() - 3)), 1)
    } else if ends_with(v, "MiB"@) {
        (trim(v.take(v.len() - 3)), 1024)
    } else if ends_with(v, "GiB"@) {
        (trim(v.take(v.len() - 3)), 1048576)
    } else {
        (v, 1)
    };
    match parse_u64_spec(number) {
        Some(n) => if n * factor <= u64::MAX {
            Some((n * factor) as u64)
        } else {
            None
        },
        None => None,
    }
}

/// fdinfo memory normalized to KiB.
pub fn parse_kib(value: &str) -> (r: Result<u64, ()>)
    ensures
        r is Ok <==> kib_value(value@) is Some,
        r matches Ok(k) ==> kib_value(value@) == Some(k),
{
    proof {
        reveal_strlit("KiB");
        reveal_strlit("MiB");
        reveal_strlit("GiB");
    }
    let v = trimmed(&chars_of(value));
    let (number, factor): (Vec<char>, u64) = if has_suffix(&v, "KiB") {
        (trimmed(&slice_chars(&v, 0, v.len() - 3)), 1)
    } else if has_suffix(&v, "MiB") {
        (trimmed(&slice_chars(&v, 0, v.len() - 3)), 1024)
    } else if has_suffix(&v, "GiB") {
        (trimmed(&slice_chars(&v, 0, v.len() - 3)), 1048576)
    } else {
        (v, 1)
    };
    proof {
        assert(v@.subrange(0, v@.len() - 3) =~= v@.take(v@.len() - 3));
    }
    match parse_u64(&number) {
        Some(n) => match n.checked_mul(factor) {
            Some(k) => Ok(k),
            None => Err(()),
        },
        None => Err(()),
    }
}

/// fdinfo memory in bytes: accumulated KiB × 1024 (malformed when that
/// overflows); without fdinfo evidence, absent when the fdinfo directory
/// was readable and its failure otherwise.
pub open spec fn fdinfo_bytes(kib: Option<u64>, fdinfo_dir: Reading<()>) -> Reading<u64> {
    match kib {
        Some(k) => if k * 1024 <= u64::MAX {
            Reading::Value((k * 1024) as u64)
        } else {
            Reading::Malformed
        },
        None => match fdinfo_dir {
            Reading::Value(_) => Reading::Absent,
            Reading::Absent => Reading::Absent,
            Reading::Sentinel => Reading::Sentinel,
            Reading::Asleep => Reading::Asleep,
            Reading::PermissionDenied => Reading::PermissionDenied,
            Reading::UnsupportedDriver => Reading::UnsupportedDriver,
            Reading::Malformed => Reading::Malformed,
            Reading::Error => Reading::Error,
        },
    }
}

/// fdinfo memory: accumulated KiB × 1024, or the reason it is missing
/// (`fdinfo_dir` is what reading the process's fdinfo directory gave).
pub fn fdinfo_reading(kib: Option<u64>, fdinfo_dir: Reading<()>) -> (r: Reading<u64>)
    ensures
        r == fdinfo_bytes(kib, fdinfo_dir),
{
    match kib {
        Some(k) => match k.checked_mul(1024) {
            Some(b) => Reading::Value(b),
            None => Reading::Malformed,
        },
        None => match fdinfo_dir {
            Reading::Value(_) => Reading::Absent,
            other => other.failure(),
        },
    }
}

/// A KFD `vram_<gpuid>` node's content: trimmed bytes, or malformed.
pub fn kfd_vram_reading(text: &Reading<String>) -> (r: Reading<u64>)
    ensures
        r == crate::source::kernel::node_u64_spec_of(*text),
{
    crate::source::kernel::node_u64(text)
}

/// The KFD scan status after one `vram_<gpuid>` reading.
pub open spec fn kfd_status_after(status: Reading<()>, reading: Reading<u64>) -> Reading<()> {
    match reading {
        Reading::PermissionDenied => merged(status, Reading::PermissionDenied),
        Reading::Malformed | Reading::Error => merged(status, Reading::Error),
        Reading::Absent => merged(status, Reading::Absent),
        _ => status,
    }
}

/// Folds one `vram_<gpuid>` reading into the KFD scan status.
pub fn kfd_status(status: Reading<()>, reading: &Reading<u64>) -> (r: Reading<()>)
    ensures
        r == kfd_status_after(status, *reading),
{
    match reading {
        Reading::PermissionDenied => merge_status(status, Reading::PermissionDenied),
        Reading::Malformed | Reading::Error => merge_status(status, Reading::Error),
        Reading::Absent => merge_status(status, Reading::Absent),
        _ => status,
    }
}

// ---------------------------------------------------------------------------
// Names and containers
// ---------------------------------------------------------------------------

/// A permitted process name: the trimmed `comm` with every control
/// character replaced by U+FFFD, so terminal safety never depends on a
/// renderer.
pub open spec fn sanitized(text: Seq<char>) -> Seq<char> {
    trim(text).map_values(|c: char| if is_control(c) {
        '\u{fffd}'
    } else {
        c
    })
}

/// Sanitizes the content of a `comm` node.
pub fn comm_name(text: &str) -> (r: String)
    ensures
        r@ == sanitized(text@),
{
    let t = trimmed(&chars_of(text));
    let mut out: Vec<char> = Vec::new();
    let mut i: usize = 0;
    while i < t.len()
        invariant
            i <= t.len(),
            t@ == trim(text@),
            out@ == t@.take(i as int).map_values(
                |c: char|
                    if is_control(c) {
                        '\u{fffd}'
                    } else {
                        c
                    },
            ),
        decreases t.len() - i,
    {
        let c = t[i];
        out.push(if char_is_control(c) {
            '\u{fffd}'
        } else {
            c
        });
        proof {
            assert(t@.take(i + 1).map_values(
                |c: char|
                    if is_control(c) {
                        '\u{fffd}'
                    } else {
                        c
                    },
            ) =~= t@.take(i as int).map_values(
                |c: char|
                    if is_control(c) {
                        '\u{fffd}'
                    } else {
                        c
                    },
            ).push(
                if is_control(t@[i as int]) {
                    '\u{fffd}'
                } else {
                    t@[i as int]
                },
            ));
        }
        i = i + 1;
    }
    proof {
        assert(t@.take(t@.len() as int) =~= t@);
    }
    string_of(&out)
}

/// The `k`-th container cgroup prefix.
pub open spec fn container_prefix(k: int) -> Seq<char> {
    if k == 0 {
        "docker-"@
    } else if k == 1 {
        "crio-"@
    } else if k == 2 {
        "cri-containerd-"@
    } else {
        "libpod-"@
    }
}

/// The label of the `k`-th container cgroup prefix.
pub open spec fn container_label(k: int) -> Seq<char> {
    if k == 0 {
        "docker"@
    } else if k == 1 {
        "crio"@
    } else if k == 2 {
        "containerd"@
    } else {
        "podman"@
    }
}

/// The container identity a cgroup path segment names under the `k`-th
/// prefix: `label:` and the first twelve characters of an at-least-twelve
/// hexadecimal id (after any `.scope` suffix is removed).
pub open spec fn segment_match(segment: Seq<char>, k: int) -> Option<Seq<char>> {
    let scoped = without_scope(segment);
    if begins_with(scoped, container_prefix(k)) {
        let id = scoped.skip(container_prefix(k).len() as int);
        if id.len() >= 12 && all_hex(id) {
            Some(container_label(k) + ":"@ + id.take(12))
        } else {
            None
        }
    } else {
        None
    }
}

/// A cgroup segment without its `.scope` suffix.
pub open spec fn without_scope(segment: Seq<char>) -> Seq<char> {
    if ends_with(segment, ".scope"@) {
        segment.take(segment.len() - 6)
    } else {
        segment
    }
}

/// Every character is a hexadecimal digit.
pub open spec fn all_hex(s: Seq<char>) -> bool {
    forall|i: int| 0 <= i < s.len() ==> is_hex_digit(#[trigger] s[i])
}

/// The first prefix (in order) under which a segment names a container.
pub open spec fn segment_container(segment: Seq<char>) -> Option<Seq<char>> {
    if segment_match(segment, 0) is Some {
        segment_match(segment, 0)
    } else if segment_match(segment, 1) is Some {
        segment_match(segment, 1)
    } else if segment_match(segment, 2) is Some {
        segment_match(segment, 2)
    } else {
        segment_match(segment, 3)
    }
}

/// The first segment (in order) that names a container.
pub open spec fn segments_container(segments: Seq<Seq<char>>) -> Option<Seq<char>>
    decreases segments.len(),
{
    if segments.len() == 0 {
        None
    } else if segment_container(segments[0]) is Some {
        segment_container(segments[0])
    } else {
        segments_container(segments.drop_first())
    }
}

/// The cgroup path of a line: what follows its last `:`.
pub open spec fn cgroup_path(line: Seq<char>) -> Seq<char> {
    pieces(line, ':').last()
}

/// The first line (in order) whose cgroup path names a container.
pub open spec fn lines_container(lines: Seq<Seq<char>>) -> Option<Seq<char>>
    decreases lines.len(),
{
    if lines.len() == 0 {
        None
    } else if segments_container(pieces(cgroup_path(lines[0]), '/')) is Some {
        segments_container(pieces(cgroup_path(lines[0]), '/'))
    } else {
        lines_container(lines.drop_first())
    }
}

#[verifier::loop_isolation(false)]
fn segment_match_exec(segment: &Vec<char>, k: usize) -> (r: Option<Vec<char>>)
    requires
        k < 4,
    ensures
        match r {
            Some(v) => segment_match(segment@, k as int) == Some(v@),
            None => segment_match(segment@, k as int) is None,
        },
{
    proof {
        reveal_strlit(".scope");
        reveal_strlit("docker-");
        reveal_strlit("crio-");
        reveal_strlit("cri-containerd-");
        reveal_strlit("libpod-");
        reveal_strlit(":");
    }
    let scoped = if has_suffix(segment, ".scope") {
        slice_chars(segment, 0, segment.len() - 6)
    } else {
        slice_chars(segment, 0, segment.len())
    };
    proof {
        assert(segment@.subrange(0, segment@.len() as int) =~= segment@);
        assert(segment@.len() >= 6 ==> segment@.subrange(0, segment@.len() - 6) =~= segment@.take(
            segment@.len() - 6,
        ));
    }
    let (prefix, label) = if k == 0 {
        ("docker-", "docker")
    } else if k == 1 {
        ("crio-", "crio")
    } else if k == 2 {
        ("cri-containerd-", "containerd")
    } else {
        ("libpod-", "podman")
    };
    if !has_prefix(&scoped, prefix) {
        return None;
    }
    let plen = chars_of(prefix).len();
    let id = slice_chars(&scoped, plen, scoped.len());
    proof {
        assert(id@ =~= scoped@.skip(plen as int));
    }
    if id.len() < 12 {
        return None;
    }
    let mut i: usize = 0;
    while i < id.len()
        invariant
            i <= id.len(),
            forall|j: int| 0 <= j < i ==> is_hex_digit(#[trigger] id@[j]),
        decreases id.len() - i,
    {
        if !char_is_hex_digit(id[i]) {
            proof {
                assert(!is_hex_digit(id@[i as int]));
                assert(scoped@ == without_scope(segment@));
                assert(id@ == without_scope(segment@).skip(container_prefix(k as int).len() as int));
            }
            return None;
        }
        i = i + 1;
    }
    let mut out: Vec<char> = Vec::new();
    extend_chars(&mut out, label);
    out.push(':');
    let head = slice_chars(&id, 0, 12);
    let mut j: usize = 0;
    while j < head.len()
        invariant
            j <= head.len(),
            head@ == id@.subrange(0, 12),
            out@ == label@ + ":"@ + head@.take(j as int),
        decreases head.len() - j,
    {
        out.push(head[j]);
        proof {
            assert(head@.take(j + 1) =~= head@.take(j as int).push(head@[j as int]));
        }
        j = j + 1;
    }
    proof {
        reveal_strlit(":");
        assert(head@.take(12) =~= id@.take(12));
        assert(out@ =~= label@ + ":"@ + id@.take(12));
    }
    Some(out)
}

/// Container identity from a cgroup file, for known container patterns.
#[verifier::loop_isolation(false)]
pub fn container_id(content: &str) -> (r: Option<String>)
    ensures
        match r {
            Some(s) => lines_container(lines_of(content@)) == Some(s@),
            None => lines_container(lines_of(content@)) is None,
        },
{
    let lines = split_lines(&chars_of(content));
    let ghost all = lines_of(content@);
    let mut li: usize = 0;
    proof {
        assert(all.skip(0) =~= all);
    }
    while li < lines.len()
        invariant
            li <= lines@.len(),
            lines@.len() == all.len(),
            all == lines_of(content@),
            forall|i: int| 0 <= i < lines@.len() ==> (#[trigger] lines@[i])@ == all[i],
            lines_container(all) == lines_container(all.skip(li as int)),
        decreases lines.len() - li,
    {
        let parts = split_char(&lines[li], ':');
        proof {
            lemma_pieces_nonempty(lines@[li as int]@, ':');
        }
        let path = &parts[parts.len() - 1];
        let segments = split_char(path, '/');
        let ghost segs = pieces(cgroup_path(all[li as int]), '/');
        let mut si: usize = 0;
        proof {
            assert(segs.skip(0) =~= segs);
        }
        while si < segments.len()
            invariant
                si <= segments@.len(),
                segments@.len() == segs.len(),
                forall|i: int| 0 <= i < segments@.len() ==> (#[trigger] segments@[i])@ == segs[i],
                segments_container(segs) == segments_container(segs.skip(si as int)),
            decreases segments.len() - si,
        {
            let segment = &segments[si];
            let mut k: usize = 0;
            while k < 4
                invariant
                    k <= 4,
                    forall|j: int| 0 <= j < k ==> segment_match(segment@, j) is None,
                decreases 4 - k,
            {
                if let Some(found) = segment_match_exec(segment, k) {
                    proof {
                        assert(segs.skip(si as int)[0] == segment@);
                        assert(segment_container(segment@) == Some(found@));
                        assert(all.skip(li as int)[0] == all[li as int]);
                    }
                    return Some(string_of(&found));
                }
                k = k + 1;
            }
            proof {
                assert(segs.skip(si as int)[0] == segment@);
                assert(segs.skip(si as int).drop_first() =~= segs.skip(si + 1));
            }
            si = si + 1;
        }
        proof {
            assert(segs.skip(si as int) =~= Seq::<Seq<char>>::empty());
            assert(all.skip(li as int)[0] == all[li as int]);
            assert(all.skip(li as int).drop_first() =~= all.skip(li + 1));
        }
        li = li + 1;
    }
    proof {
        assert(all.skip(li as int) =~= Seq::<Seq<char>>::empty());
    }
    None
}

} // verus!

verus! {

// ---------------------------------------------------------------------------
// fdinfo
// ---------------------------------------------------------------------------

/// The DRM client one fdinfo entry describes.
#[derive(Debug)]
pub struct FdinfoClient {
    /// `drm-pdev`, when it is a valid PCI address.
    pub pdev: Option<PciBdf>,
    /// `drm-client-id`, empty when absent.
    pub client_id: String,
    /// `drm-resident-vram` in KiB; `Err` when malformed.
    pub vram_kib: Option<Result<u64, ()>>,
    /// `drm-resident-gtt` in KiB; `Err` when malformed.
    pub gtt_kib: Option<Result<u64, ()>>,
}

/// What an fdinfo entry says, as plain values.
pub struct FdinfoView {
    pub pdev: Option<Seq<char>>,
    pub client_id: Seq<char>,
    pub vram_kib: Option<Option<u64>>,
    pub gtt_kib: Option<Option<u64>>,
}

/// A `key: value` line's trimmed key and value; `None` without a colon.
pub open spec fn key_value(line: Seq<char>) -> Option<(Seq<char>, Seq<char>)> {
    let k = first_index(line, ':');
    if k < 0 {
        None
    } else {
        Some((trim(line.take(k)), trim(line.skip(k + 1))))
    }
}

/// A PCI address value as `drm-pdev` parses it.
pub open spec fn pdev_value(value: Seq<char>) -> Option<Seq<char>> {
    if is_bdf_text(value) {
        Some(lowercase(value))
    } else {
        None
    }
}

/// One line's effect on the entry's view; later lines win.
pub open spec fn fdinfo_step(acc: FdinfoView, line: Seq<char>) -> FdinfoView {
    match key_value(line) {
        None => acc,
        Some((key, value)) => if key == "drm-pdev"@ {
            FdinfoView { pdev: pdev_value(value), ..acc }
        } else if key == "drm-client-id"@ {
            FdinfoView { client_id: value, ..acc }
        } else if key == "drm-resident-vram"@ {
            FdinfoView { vram_kib: Some(kib_value(value)), ..acc }
        } else if key == "drm-resident-gtt"@ {
            FdinfoView { gtt_kib: Some(kib_value(value)), ..acc }
        } else {
            acc
        },
    }
}

/// The view of an fdinfo entry's lines, in order.
pub open spec fn fdinfo_fold(lines: Seq<Seq<char>>) -> FdinfoView
    decreases lines.len(),
{
    if lines.len() == 0 {
        FdinfoView { pdev: None, client_id: Seq::empty(), vram_kib: None, gtt_kib: None }
    } else {
        fdinfo_step(fdinfo_fold(lines.drop_last()), lines.last())
    }
}

/// The plain-value view of a parsed client.
pub open spec fn client_view(c: FdinfoClient) -> FdinfoView {
    FdinfoView {
        pdev: match c.pdev {
            Some(b) => Some(b@),
            None => None,
        },
        client_id: c.client_id@,
        vram_kib: match c.vram_kib {
            Some(Ok(k)) => Some(Some(k)),
            Some(Err(_)) => Some(None),
            None => None,
        },
        gtt_kib: match c.gtt_kib {
            Some(Ok(k)) => Some(Some(k)),
            Some(Err(_)) => Some(None),
            None => None,
        },
    }
}

fn kib_reading(value: &Vec<char>) -> (r: Result<u64, ()>)
    ensures
        r is Ok <==> kib_value(value@) is Some,
        r matches Ok(k) ==> kib_value(value@) == Some(k),
{
    parse_kib(string_of(value).as_str())
}

/// Parses one fdinfo entry; `None` unless it belongs to an amdgpu DRM
/// client (it mentions both `drm-driver:` and `amdgpu`).
#[verifier::loop_isolation(false)]
pub fn parse_fdinfo(content: &str) -> (r: Option<FdinfoClient>)
    ensures
        !(contains_text(content@, "drm-driver:"@) && contains_text(content@, "amdgpu"@)) ==> r is None,
        contains_text(content@, "drm-driver:"@) && contains_text(content@, "amdgpu"@) ==> (r matches Some(c)
            && client_view(c) == fdinfo_fold(lines_of(content@))),
{
    let chars = chars_of(content);
    if !contains_chars(&chars, "drm-driver:") || !contains_chars(&chars, "amdgpu") {
        return None;
    }
    let lines = split_lines(&chars);
    let ghost all = lines_of(content@);
    let mut client = FdinfoClient {
        pdev: None,
        client_id: String::new(),
        vram_kib: None,
        gtt_kib: None,
    };
    let mut i: usize = 0;
    proof {
        assert(all.take(0) =~= Seq::<Seq<char>>::empty());
    }
    while i < lines.len()
        invariant
            i <= lines@.len(),
            lines@.len() == all.len(),
            forall|j: int| 0 <= j < lines@.len() ==> (#[trigger] lines@[j])@ == all[j],
            client_view(client) == fdinfo_fold(all.take(i as int)),
        decreases lines.len() - i,
    {
        let line = &lines[i];
        proof {
            assert(all.take(i + 1).drop_last() =~= all.take(i as int));
            assert(all.take(i + 1).last() == line@);
            lemma_first_index_bound(line@, ':');
            reveal_strlit("drm-pdev");
            reveal_strlit("drm-client-id");
            reveal_strlit("drm-resident-vram");
            reveal_strlit("drm-resident-gtt");
        }
        let mut colon: usize = 0;
        while colon < line.len() && line[colon] != ':'
            invariant
                colon <= line.len(),
                forall|j: int| 0 <= j < colon ==> line@[j] != ':',
            decreases line.len() - colon,
        {
            colon = colon + 1;
        }
        proof {
            crate::text::lemma_first_index_is_pub(line@, ':', colon as int);
        }
        if colon < line.len() {
            let key = trimmed(&slice_chars(line, 0, colon));
            let value = trimmed(&slice_chars(line, colon + 1, line.len()));
            proof {
                assert(line@.subrange(0, colon as int) =~= line@.take(colon as int));
                assert(line@.subrange(colon + 1, line@.len() as int) =~= line@.skip(colon + 1));
            }
            let key_text = string_of(&key);
            let k = key_text.as_str();
            if crate::text::same_text(k, "drm-pdev") {
                client.pdev = match PciBdf::parse(string_of(&value).as_str()) {
                    Ok(b) => Some(b),
                    Err(_) => None,
                };
            } else if crate::text::same_text(k, "drm-client-id") {
                client.client_id = string_of(&value);
            } else if crate::text::same_text(k, "drm-resident-vram") {
                client.vram_kib = Some(kib_reading(&value));
            } else if crate::text::same_text(k, "drm-resident-gtt") {
                client.gtt_kib = Some(kib_reading(&value));
            }
        }
        proof {
            assert(client_view(client) == fdinfo_fold(all.take(i + 1)));
        }
        i = i + 1;
    }
    proof {
        assert(all.take(lines@.len() as int) =~= all);
    }
    Some(client)
}

/// The key that deduplicates one DRM client seen through several fds: its
/// client id, or `fd:` and the fd name when it has none.
pub open spec fn client_key(client_id: Seq<char>, fd_name: Seq<char>) -> Seq<char> {
    if client_id.len() == 0 {
        "fd:"@ + fd_name
    } else {
        client_id
    }
}

/// The deduplication key of a client seen through fd `fd_name`.
pub fn dedup_key(client_id: &String, fd_name: &str) -> (r: String)
    ensures
        r@ == client_key(client_id@, fd_name@),
{
    if chars_of(client_id.as_str()).len() == 0 {
        let mut out: Vec<char> = Vec::new();
        extend_chars(&mut out, "fd:");
        extend_chars(&mut out, fd_name);
        string_of(&out)
    } else {
        client_id.clone()
    }
}

/// The view of an optional address.
pub open spec fn bdf_view(b: Option<PciBdf>) -> Option<Seq<char>> {
    match b {
        Some(x) => Some(x@),
        None => None,
    }
}

fn same_bdf(a: &Option<PciBdf>, b: &Option<PciBdf>) -> (r: bool)
    ensures
        r == (bdf_view(*a) == bdf_view(*b)),
{
    match (a, b) {
        (Some(x), Some(y)) => x.same(y),
        (None, None) => true,
        _ => false,
    }
}

fn clone_bdf(b: &Option<PciBdf>) -> (r: Option<PciBdf>)
    ensures
        r == *b,
{
    match b {
        Some(x) => Some(x.clone()),
        None => None,
    }
}

/// The keys of recorded clients.
pub open spec fn keys_of(seen: Seq<(Option<PciBdf>, String)>) -> Set<(Option<Seq<char>>, Seq<char>)> {
    Set::new(
        |k: (Option<Seq<char>>, Seq<char>)|
            exists|i: int|
                0 <= i < seen.len() && bdf_view(#[trigger] seen[i].0) == k.0 && seen[i].1@ == k.1,
    )
}

proof fn lemma_keys_push(seen: Seq<(Option<PciBdf>, String)>, e: (Option<PciBdf>, String))
    ensures
        keys_of(seen.push(e)) == keys_of(seen).insert((bdf_view(e.0), e.1@)),
{
    let after = seen.push(e);
    assert forall|k: (Option<Seq<char>>, Seq<char>)| #[trigger] keys_of(after).contains(k)
        == keys_of(seen).insert((bdf_view(e.0), e.1@)).contains(k) by {
        if keys_of(seen).contains(k) {
            let j = choose|j: int|
                0 <= j < seen.len() && bdf_view(#[trigger] seen[j].0) == k.0 && seen[j].1@ == k.1;
            assert(after[j] == seen[j]);
        }
        if k == (bdf_view(e.0), e.1@) {
            assert(after[seen.len() as int] == e);
        }
        if keys_of(after).contains(k) {
            let j = choose|j: int|
                0 <= j < after.len() && bdf_view(#[trigger] after[j].0) == k.0 && after[j].1@ == k.1;
            if j < seen.len() {
                assert(seen[j] == after[j]);
            }
        }
    }
    assert(keys_of(after) =~= keys_of(seen).insert((bdf_view(e.0), e.1@)));
}

/// The DRM clients already counted for one process.
pub struct SeenClients {
    seen: Vec<(Option<PciBdf>, String)>,
}

impl SeenClients {
    pub closed spec fn keys(&self) -> Set<(Option<Seq<char>>, Seq<char>)> {
        keys_of(self.seen@)
    }

    /// No client counted yet.
    pub fn new() -> (s: SeenClients)
        ensures
            s.keys() == Set::<(Option<Seq<char>>, Seq<char>)>::empty(),
    {
        let s = SeenClients { seen: Vec::new() };
        proof {
            assert(keys_of(s.seen@) =~= Set::<(Option<Seq<char>>, Seq<char>)>::empty());
        }
        s
    }

    /// Records a client; whether it is the first sighting (to be counted).
    pub fn first_sighting(&mut self, pdev: &Option<PciBdf>, key: &String) -> (first: bool)
        ensures
            first == !old(self).keys().contains((bdf_view(*pdev), key@)),
            final(self).keys() == old(self).keys().insert((bdf_view(*pdev), key@)),
    {
        let mut i: usize = 0;
        while i < self.seen.len()
            invariant
                i <= self.seen@.len(),
                self.seen@ == old(self).seen@,
                forall|j: int|
                    0 <= j < i ==> !(bdf_view(#[trigger] self.seen@[j].0) == bdf_view(*pdev)
                        && self.seen@[j].1@ == key@),
            decreases self.seen.len() - i,
        {
            if same_bdf(&self.seen[i].0, pdev) && self.seen[i].1 == *key {
                proof {
                    assert(keys_of(self.seen@).contains((bdf_view(*pdev), key@)));
                    assert(keys_of(self.seen@).insert((bdf_view(*pdev), key@)) =~= keys_of(self.seen@));
                }
                return false;
            }
            i = i + 1;
        }
        proof {
            assert(!keys_of(self.seen@).contains((bdf_view(*pdev), key@)));
            lemma_keys_push(self.seen@, (clone_bdf_spec(*pdev), *key));
        }
        self.seen.push((clone_bdf(pdev), key.clone()));
        true
    }
}

pub open spec fn clone_bdf_spec(b: Option<PciBdf>) -> Option<PciBdf> {
    b
}

} // verus!

verus! {

// ---------------------------------------------------------------------------
// Evidence accumulation
// ---------------------------------------------------------------------------

/// Evidence accumulated for one (PID, GPU) association during one scan.
#[derive(Debug, Clone, Copy, PartialEq, Eq)]
pub struct Accumulator {
    pub fdinfo_vram_kib: Option<u64>,
    pub fdinfo_gtt_kib: Option<u64>,
    pub vram_malformed: bool,
    pub gtt_malformed: bool,
    pub kfd_vram_bytes: Option<Reading<u64>>,
}

/// No evidence yet.
pub open spec fn empty_accumulator() -> Accumulator {
    Accumulator {
        fdinfo_vram_kib: None,
        fdinfo_gtt_kib: None,
        vram_malformed: false,
        gtt_malformed: false,
        kfd_vram_bytes: None,
    }
}

/// A KiB quantity added to a running total: an overflowing sum drops the
/// total and marks it malformed, a malformed quantity marks it malformed.
pub open spec fn add_kib(total: Option<u64>, malformed: bool, kib: Option<Option<u64>>) -> (Option<u64>, bool) {
    match kib {
        Some(Some(k)) => {
            let base: int = match total {
                Some(t) => t as int,
                None => 0,
            };
            if base + k <= u64::MAX {
                (Some((base + k) as u64), malformed)
            } else {
                (None, true)
            }
        },
        Some(None) => (total, true),
        None => (total, malformed),
    }
}

fn add_kib_exec(total: Option<u64>, malformed: bool, kib: &Option<Result<u64, ()>>) -> (r: (Option<u64>, bool))
    ensures
        r == add_kib(total, malformed, match *kib {
            Some(Ok(k)) => Some(Some(k)),
            Some(Err(_)) => Some(None),
            None => None,
        }),
{
    match kib {
        Some(Ok(k)) => {
            let base = match total {
                Some(t) => t,
                None => 0,
            };
            match base.checked_add(*k) {
                Some(sum) => (Some(sum), malformed),
                None => (None, true),
            }
        },
        Some(Err(_)) => (total, true),
        None => (total, malformed),
    }
}

/// The accumulator after one counted fdinfo client.
pub open spec fn with_fdinfo(acc: Accumulator, client: FdinfoView) -> Accumulator {
    let (vram, vram_bad) = add_kib(acc.fdinfo_vram_kib, acc.vram_malformed, client.vram_kib);
    let (gtt, gtt_bad) = add_kib(acc.fdinfo_gtt_kib, acc.gtt_malformed, client.gtt_kib);
    Accumulator {
        fdinfo_vram_kib: vram,
        vram_malformed: vram_bad,
        fdinfo_gtt_kib: gtt,
        gtt_malformed: gtt_bad,
        ..acc
    }
}

/// The accumulator after counting the clients in order, as successive
/// `record_fdinfo` calls of one association leave it.
pub open spec fn after_clients(acc: Accumulator, clients: Seq<FdinfoView>) -> Accumulator
    decreases clients.len(),
{
    if clients.len() == 0 {
        acc
    } else {
        with_fdinfo(after_clients(acc, clients.drop_last()), clients.last())
    }
}

/// The KiB a resident figure contributes: its quantity, or nothing.
pub open spec fn kib_of(q: Option<Option<u64>>) -> int {
    match q {
        Some(Some(k)) => k as int,
        _ => 0,
    }
}

/// The summed resident VRAM of the clients, KiB.
pub open spec fn vram_total(clients: Seq<FdinfoView>) -> int
    decreases clients.len(),
{
    if clients.len() == 0 {
        0
    } else {
        vram_total(clients.drop_last()) + kib_of(clients.last().vram_kib)
    }
}

/// The summed resident GTT of the clients, KiB.
pub open spec fn gtt_total(clients: Seq<FdinfoView>) -> int
    decreases clients.len(),
{
    if clients.len() == 0 {
        0
    } else {
        gtt_total(clients.drop_last()) + kib_of(clients.last().gtt_kib)
    }
}

/// The fdinfo VRAM of an association is the sum of the resident VRAM of
/// every counted client: when no client's figure is malformed and the sum
/// fits, recording the clients one by one leaves exactly that sum (none
/// when no client reported VRAM), never just one client's share.
pub proof fn lemma_fdinfo_vram_is_the_sum(clients: Seq<FdinfoView>)
    requires
        forall|i: int| 0 <= i < clients.len() ==> !((#[trigger] clients[i]).vram_kib matches Some(None)),
        vram_total(clients) <= u64::MAX,
    ensures
        !after_clients(empty_accumulator(), clients).vram_malformed,
        (exists|i: int| 0 <= i < clients.len() && (#[trigger] clients[i]).vram_kib matches Some(Some(_)))
            ==> after_clients(empty_accumulator(), clients).fdinfo_vram_kib == Some(vram_total(clients) as u64),
        !(exists|i: int| 0 <= i < clients.len() && (#[trigger] clients[i]).vram_kib matches Some(Some(_)))
            ==> after_clients(empty_accumulator(), clients).fdinfo_vram_kib is None && vram_total(clients) == 0,
    decreases clients.len(),
{
    if clients.len() > 0 {
        let rest = clients.drop_last();
        assert forall|i: int| 0 <= i < rest.len() implies !((#[trigger] rest[i]).vram_kib matches Some(None)) by {
            assert(rest[i] == clients[i]);
        }
        assert(vram_total(rest) >= 0) by {
            lemma_totals_nonnegative(rest);
        }
        lemma_fdinfo_vram_is_the_sum(rest);
        let last = clients.last();
        assert(last == clients[clients.len() - 1]);
        if exists|i: int| 0 <= i < rest.len() && (#[trigger] rest[i]).vram_kib matches Some(Some(_)) {
            let i = choose|i: int| 0 <= i < rest.len() && (#[trigger] rest[i]).vram_kib matches Some(Some(_));
            assert(clients[i] == rest[i]);
        }
        if exists|i: int| 0 <= i < clients.len() && (#[trigger] clients[i]).vram_kib matches Some(Some(_)) {
            let i = choose|i: int| 0 <= i < clients.len() && (#[trigger] clients[i]).vram_kib matches Some(Some(_));
            if i < rest.len() {
                assert(rest[i] == clients[i]);
            }
        }
    }
}

/// The fdinfo GTT of an association is the sum of the resident GTT of every
/// counted client, as for VRAM.
pub proof fn lemma_fdinfo_gtt_is_the_sum(clients: Seq<FdinfoView>)
    requires
        forall|i: int| 0 <= i < clients.len() ==> !((#[trigger] clients[i]).gtt_kib matches Some(None)),
        gtt_total(clients) <= u64::MAX,
    ensures
        !after_clients(empty_accumulator(), clients).gtt_malformed,
        (exists|i: int| 0 <= i < clients.len() && (#[trigger] clients[i]).gtt_kib matches Some(Some(_)))
            ==> after_clients(empty_accumulator(), clients).fdinfo_gtt_kib == Some(gtt_total(clients) as u64),
        !(exists|i: int| 0 <= i < clients.len() && (#[trigger] clients[i]).gtt_kib matches Some(Some(_)))
            ==> after_clients(empty_accumulator(), clients).fdinfo_gtt_kib is None && gtt_total(clients) == 0,
    decreases clients.len(),
{
    if clients.len() > 0 {
        let rest = clients.drop_last();
        assert forall|i: int| 0 <= i < rest.len() implies !((#[trigger] rest[i]).gtt_kib matches Some(None)) by {
            assert(rest[i] == clients[i]);
        }
        assert(gtt_total(rest) >= 0) by {
            lemma_totals_nonnegative(rest);
        }
        lemma_fdinfo_gtt_is_the_sum(rest);
        let last = clients.last();
        assert(last == clients[clients.len() - 1]);
        if exists|i: int| 0 <= i < rest.len() && (#[trigger] rest[i]).gtt_kib matches Some(Some(_)) {
            let i = choose|i: int| 0 <= i < rest.len() && (#[trigger] rest[i]).gtt_kib matches Some(Some(_));
            assert(clients[i] == rest[i]);
        }
        if exists|i: int| 0 <= i < clients.len() && (#[trigger] clients[i]).gtt_kib matches Some(Some(_)) {
            let i = choose|i: int| 0 <= i < clients.len() && (#[trigger] clients[i]).gtt_kib matches Some(Some(_));
            if i < rest.len() {
                assert(rest[i] == clients[i]);
            }
        }
    }
}

/// A malformed resident figure is never hidden: once any counted client's
/// VRAM (or GTT) quantity is malformed, the association's VRAM (or GTT)
/// stays malformed whatever is counted after it.
pub proof fn lemma_malformed_figure_is_kept(clients: Seq<FdinfoView>)
    ensures
        (exists|i: int| 0 <= i < clients.len() && (#[trigger] clients[i]).vram_kib matches Some(None))
            ==> after_clients(empty_accumulator(), clients).vram_malformed,
        (exists|i: int| 0 <= i < clients.len() && (#[trigger] clients[i]).gtt_kib matches Some(None))
            ==> after_clients(empty_accumulator(), clients).gtt_malformed,
    decreases clients.len(),
{
    if clients.len() > 0 {
        let rest = clients.drop_last();
        lemma_malformed_figure_is_kept(rest);
        assert(clients.last() == clients[clients.len() - 1]);
        if exists|i: int| 0 <= i < clients.len() && (#[trigger] clients[i]).vram_kib matches Some(None) {
            let i = choose|i: int| 0 <= i < clients.len() && (#[trigger] clients[i]).vram_kib matches Some(None);
            if i < rest.len() {
                assert(rest[i] == clients[i]);
            }
        }
        if exists|i: int| 0 <= i < clients.len() && (#[trigger] clients[i]).gtt_kib matches Some(None) {
            let i = choose|i: int| 0 <= i < clients.len() && (#[trigger] clients[i]).gtt_kib matches Some(None);
            if i < rest.len() {
                assert(rest[i] == clients[i]);
            }
        }
    }
}

/// A VRAM total too large for 64 bits is never wrapped or clamped: the
/// association's VRAM is then malformed.
pub proof fn lemma_overflowing_vram_is_malformed(clients: Seq<FdinfoView>)
    requires
        vram_total(clients) > u64::MAX,
    ensures
        after_clients(empty_accumulator(), clients).vram_malformed,
    decreases clients.len(),
{
    let rest = clients.drop_last();
    lemma_totals_nonnegative(rest);
    if vram_total(rest) > u64::MAX {
        lemma_overflowing_vram_is_malformed(rest);
    } else if exists|i: int| 0 <= i < rest.len() && (#[trigger] rest[i]).vram_kib matches Some(None) {
        lemma_malformed_figure_is_kept(rest);
    } else {
        lemma_fdinfo_vram_is_the_sum(rest);
    }
}

/// A GTT total too large for 64 bits is never wrapped or clamped: the
/// association's GTT is then malformed.
pub proof fn lemma_overflowing_gtt_is_malformed(clients: Seq<FdinfoView>)
    requires
        gtt_total(clients) > u64::MAX,
    ensures
        after_clients(empty_accumulator(), clients).gtt_malformed,
    decreases clients.len(),
{
    let rest = clients.drop_last();
    lemma_totals_nonnegative(rest);
    if gtt_total(rest) > u64::MAX {
        lemma_overflowing_gtt_is_malformed(rest);
    } else if exists|i: int| 0 <= i < rest.len() && (#[trigger] rest[i]).gtt_kib matches Some(None) {
        lemma_malformed_figure_is_kept(rest);
    } else {
        lemma_fdinfo_gtt_is_the_sum(rest);
    }
}

/// Totals are never negative.
proof fn lemma_totals_nonnegative(clients: Seq<FdinfoView>)
    ensures
        vram_total(clients) >= 0,
        gtt_total(clients) >= 0,
    decreases clients.len(),
{
    if clients.len() > 0 {
        lemma_totals_nonnegative(clients.drop_last());
    }
}

/// One (PID, GPU) association and its evidence.
#[derive(Debug)]
pub struct EvidenceEntry {
    pub pid: u32,
    pub bdf: Option<PciBdf>,
    pub acc: Accumulator,
}

/// The key of an association.
pub open spec fn entry_key(e: EvidenceEntry) -> (u32, Option<Seq<char>>) {
    (e.pid, bdf_view(e.bdf))
}

/// All evidence of one scan, one entry per (PID, GPU) association.
pub struct ProcessEvidence {
    entries: Vec<EvidenceEntry>,
}

impl ProcessEvidence {
    /// No two entries share an association.
    pub closed spec fn wf(&self) -> bool {
        forall|i: int, j: int|
            0 <= i < j < self.entries@.len() ==> entry_key(#[trigger] self.entries@[i])
                != entry_key(#[trigger] self.entries@[j])
    }

    /// The evidence of each association.
    pub closed spec fn evidence(&self) -> Map<(u32, Option<Seq<char>>), Accumulator> {
        Map::new(
            |k: (u32, Option<Seq<char>>)|
                exists|i: int| 0 <= i < self.entries@.len() && entry_key(#[trigger] self.entries@[i]) == k,
            |k: (u32, Option<Seq<char>>)|
                self.entries@[choose|i: int|
                    0 <= i < self.entries@.len() && entry_key(#[trigger] self.entries@[i]) == k].acc,
        )
    }

    /// The entries, for building rows.
    pub closed spec fn spec_entries(&self) -> Seq<EvidenceEntry> {
        self.entries@
    }

    /// No evidence yet.
    pub fn new() -> (e: ProcessEvidence)
        ensures
            e.wf(),
            e.evidence() == Map::<(u32, Option<Seq<char>>), Accumulator>::empty(),
    {
        let e = ProcessEvidence { entries: Vec::new() };
        proof {
            assert(e.evidence() =~= Map::<(u32, Option<Seq<char>>), Accumulator>::empty());
        }
        e
    }

    /// Each entry is the evidence of its association.
    pub proof fn lemma_entries_are_evidence(&self)
        requires
            self.wf(),
        ensures
            forall|i: int|
                0 <= i < self.spec_entries().len() ==> self.evidence().contains_key(
                    entry_key(#[trigger] self.spec_entries()[i]),
                ) && self.evidence()[entry_key(self.spec_entries()[i])] == self.spec_entries()[i].acc,
    {
        assert forall|i: int| 0 <= i < self.entries@.len() implies self.evidence().contains_key(
            entry_key(#[trigger] self.entries@[i]),
        ) && self.evidence()[entry_key(self.entries@[i])] == self.entries@[i].acc by {
            let k = entry_key(self.entries@[i]);
            let j = choose|j: int| 0 <= j < self.entries@.len() && entry_key(#[trigger] self.entries@[j]) == k;
            if j != i {
                if j < i {
                    assert(entry_key(self.entries@[j]) != entry_key(self.entries@[i]));
                } else {
                    assert(entry_key(self.entries@[i]) != entry_key(self.entries@[j]));
                }
            }
        }
    }

    /// The entries in the order they were first seen.
    pub fn entries(&self) -> (r: &Vec<EvidenceEntry>)
        ensures
            r@ == self.spec_entries(),
            self.wf() ==> forall|i: int|
                0 <= i < r@.len() ==> self.evidence().contains_key(entry_key(#[trigger] r@[i]))
                    && self.evidence()[entry_key(r@[i])] == r@[i].acc,
    {
        proof {
            if self.wf() {
                assert forall|i: int| 0 <= i < self.entries@.len() implies self.evidence().contains_key(
                    entry_key(#[trigger] self.entries@[i]),
                ) && self.evidence()[entry_key(self.entries@[i])] == self.entries@[i].acc by {
                    self.lemma_lookup(i);
                }
            }
        }
        &self.entries
    }

    proof fn lemma_lookup(&self, i: int)
        requires
            self.wf(),
            0 <= i < self.entries@.len(),
        ensures
            self.evidence().contains_key(entry_key(self.entries@[i])),
            self.evidence()[entry_key(self.entries@[i])] == self.entries@[i].acc,
    {
        let k = entry_key(self.entries@[i]);
        assert(self.evidence().dom().contains(k));
        let j = choose|j: int| 0 <= j < self.entries@.len() && entry_key(#[trigger] self.entries@[j]) == k;
        if j < i {
            assert(entry_key(self.entries@[j]) != entry_key(self.entries@[i]));
        } else if j > i {
            assert(entry_key(self.entries@[i]) != entry_key(self.entries@[j]));
        }
    }

    /// Sets the evidence of one association (adding it when new).
    fn put(&mut self, pid: u32, bdf: &Option<PciBdf>, acc: Accumulator)
        requires
            old(self).wf(),
        ensures
            final(self).wf(),
            final(self).evidence() == old(self).evidence().insert((pid, bdf_view(*bdf)), acc),
    {
        let ghost key = (pid, bdf_view(*bdf));
        let ghost before = self.entries@;
        let found = self.find_entry(pid, bdf);
        let i: usize = match found {
            Some(i) => i,
            None => self.entries.len(),
        };
        if i < self.entries.len() {
            let old_bdf = clone_bdf(&self.entries[i].bdf);
            self.entries.set(i, EvidenceEntry { pid, bdf: old_bdf, acc });
            proof {
                let after = self.entries@;
                assert(entry_key(after[i as int]) == key);
                assert forall|a: int, b: int| 0 <= a < b < after.len() implies entry_key(#[trigger] after[a])
                    != entry_key(#[trigger] after[b]) by {
                    assert(entry_key(before[a]) != entry_key(before[b]));
                    if a == i {
                        assert(entry_key(after[a]) == entry_key(before[a]));
                    }
                    if b == i {
                        assert(entry_key(after[b]) == entry_key(before[b]));
                    }
                }
                assert forall|k: (u32, Option<Seq<char>>)| #[trigger] self.evidence().contains_key(k)
                    == old(self).evidence().insert(key, acc).contains_key(k) by {
                    if exists|j: int| 0 <= j < after.len() && entry_key(#[trigger] after[j]) == k {
                        let j = choose|j: int| 0 <= j < after.len() && entry_key(#[trigger] after[j]) == k;
                        if j != i {
                            assert(entry_key(before[j]) == k);
                        }
                    }
                    if exists|j: int| 0 <= j < before.len() && entry_key(#[trigger] before[j]) == k {
                        let j = choose|j: int| 0 <= j < before.len() && entry_key(#[trigger] before[j]) == k;
                        assert(entry_key(after[j]) == k);
                    }
                }
                assert forall|k: (u32, Option<Seq<char>>)| #[trigger] self.evidence().contains_key(k) implies
                    self.evidence()[k] == old(self).evidence().insert(key, acc)[k] by {
                    let j = choose|j: int| 0 <= j < after.len() && entry_key(#[trigger] after[j]) == k;
                    self.lemma_lookup(j);
                    if k != key {
                        assert(j != i);
                        old(self).lemma_lookup(j);
                    } else {
                        self.lemma_lookup(i as int);
                    }
                }
                assert(self.evidence() =~= old(self).evidence().insert(key, acc));
            }
        } else {
            self.entries.push(EvidenceEntry { pid, bdf: clone_bdf(bdf), acc });
            proof {
                let after = self.entries@;
                assert forall|a: int, b: int| 0 <= a < b < after.len() implies entry_key(#[trigger] after[a])
                    != entry_key(#[trigger] after[b]) by {
                    if b == before.len() {
                        assert(entry_key(before[a]) != key);
                    } else {
                        assert(entry_key(before[a]) != entry_key(before[b]));
                    }
                }
                assert forall|k: (u32, Option<Seq<char>>)| #[trigger] self.evidence().contains_key(k)
                    == old(self).evidence().insert(key, acc).contains_key(k) by {
                    if exists|j: int| 0 <= j < after.len() && entry_key(#[trigger] after[j]) == k {
                        let j = choose|j: int| 0 <= j < after.len() && entry_key(#[trigger] after[j]) == k;
                        if j < before.len() {
                            assert(entry_key(before[j]) == k);
                        }
                    }
                    if exists|j: int| 0 <= j < before.len() && entry_key(#[trigger] before[j]) == k {
                        let j = choose|j: int| 0 <= j < before.len() && entry_key(#[trigger] before[j]) == k;
                        assert(entry_key(after[j]) == k);
                    }
                    if k == key {
                        assert(entry_key(after[before.len() as int]) == k);
                    }
                }
                assert forall|k: (u32, Option<Seq<char>>)| #[trigger] self.evidence().contains_key(k) implies
                    self.evidence()[k] == old(self).evidence().insert(key, acc)[k] by {
                    let j = choose|j: int| 0 <= j < after.len() && entry_key(#[trigger] after[j]) == k;
                    self.lemma_lookup(j);
                    if k != key {
                        assert(j < before.len());
                        old(self).lemma_lookup(j);
                    }
                }
                assert(self.evidence() =~= old(self).evidence().insert(key, acc));
            }
        }
    }

    fn find_entry(&self, pid: u32, bdf: &Option<PciBdf>) -> (r: Option<usize>)
        ensures
            r matches Some(i) ==> i < self.entries@.len() && entry_key(self.entries@[i as int]) == (
            pid, bdf_view(*bdf)),
            r is None ==> forall|j: int|
                0 <= j < self.entries@.len() ==> entry_key(#[trigger] self.entries@[j]) != (pid,
                bdf_view(*bdf)),
    {
        let mut i: usize = 0;
        while i < self.entries.len()
            invariant
                i <= self.entries@.len(),
                forall|j: int| 0 <= j < i ==> entry_key(#[trigger] self.entries@[j]) != (pid, bdf_view(*bdf)),
            decreases self.entries.len() - i,
        {
            if self.entries[i].pid == pid && same_bdf(&self.entries[i].bdf, bdf) {
                return Some(i);
            }
            i = i + 1;
        }
        None
    }

    fn get(&self, pid: u32, bdf: &Option<PciBdf>) -> (r: Accumulator)
        requires
            self.wf(),
        ensures
            r == (if self.evidence().contains_key((pid, bdf_view(*bdf))) {
                self.evidence()[(pid, bdf_view(*bdf))]
            } else {
                empty_accumulator()
            }),
    {
        if let Some(i) = self.find_entry(pid, bdf) {
            proof {
                self.lemma_lookup(i as int);
            }
            return self.entries[i].acc;
        }
        Accumulator {
            fdinfo_vram_kib: None,
            fdinfo_gtt_kib: None,
            vram_malformed: false,
            gtt_malformed: false,
            kfd_vram_bytes: None,
        }
    }

    /// Adds one counted fdinfo client of process `pid`.
    pub fn record_fdinfo(&mut self, pid: u32, client: &FdinfoClient)
        requires
            old(self).wf(),
        ensures
            final(self).wf(),
            ({
                let key = (pid, bdf_view(client.pdev));
                let before = if old(self).evidence().contains_key(key) {
                    old(self).evidence()[key]
                } else {
                    empty_accumulator()
                };
                final(self).evidence() == old(self).evidence().insert(
                    key,
                    with_fdinfo(before, client_view(*client)),
                )
            }),
    {
        let acc = self.get(pid, &client.pdev);
        let (vram, vram_bad) = add_kib_exec(acc.fdinfo_vram_kib, acc.vram_malformed, &client.vram_kib);
        let (gtt, gtt_bad) = add_kib_exec(acc.fdinfo_gtt_kib, acc.gtt_malformed, &client.gtt_kib);
        let updated = Accumulator {
            fdinfo_vram_kib: vram,
            vram_malformed: vram_bad,
            fdinfo_gtt_kib: gtt,
            gtt_malformed: gtt_bad,
            kfd_vram_bytes: acc.kfd_vram_bytes,
        };
        self.put(pid, &client.pdev, updated);
    }

    /// Records the KFD `vram_<gpuid>` reading of process `pid` on the GPU
    /// its topology names (or an unresolved one).
    pub fn record_kfd(&mut self, pid: u32, bdf: &Option<PciBdf>, reading: Reading<u64>)
        requires
            old(self).wf(),
        ensures
            final(self).wf(),
            ({
                let key = (pid, bdf_view(*bdf));
                let before = if old(self).evidence().contains_key(key) {
                    old(self).evidence()[key]
                } else {
                    empty_accumulator()
                };
                final(self).evidence() == old(self).evidence().insert(
                    key,
                    Accumulator { kfd_vram_bytes: Some(reading), ..before },
                )
            }),
    {
        let acc = self.get(pid, bdf);
        let updated = Accumulator { kfd_vram_bytes: Some(reading), ..acc };
        self.put(pid, bdf, updated);
    }
}

} // verus!

verus! {

// ---------------------------------------------------------------------------
// Rows
// ---------------------------------------------------------------------------

/// fdinfo bytes of a row: malformed evidence stays malformed.
pub open spec fn fdinfo_field(kib: Option<u64>, malformed: bool, fdinfo_dir: Reading<()>) -> Reading<u64> {
    if malformed {
        Reading::Malformed
    } else {
        fdinfo_bytes(kib, fdinfo_dir)
    }
}

/// Builds the row of one association from its evidence and what reading
/// the process's `comm`, cgroup, and fdinfo directory gave.
pub fn row_of(entry: &EvidenceEntry, name: Reading<String>, container: Option<String>, fdinfo_dir: Reading<()>) -> (r: ProcessRow)
    ensures
        r.pid == entry.pid,
        r.bdf == entry.bdf,
        r.name == name,
        r.container == container,
        r.fdinfo_vram_bytes == fdinfo_field(entry.acc.fdinfo_vram_kib, entry.acc.vram_malformed, fdinfo_dir),
        r.fdinfo_gtt_bytes == fdinfo_field(entry.acc.fdinfo_gtt_kib, entry.acc.gtt_malformed, fdinfo_dir),
        r.kfd_vram_bytes == (match entry.acc.kfd_vram_bytes {
            Some(k) => k,
            None => Reading::<u64>::Absent,
        }),
{
    let vram = if entry.acc.vram_malformed {
        Reading::Malformed
    } else {
        fdinfo_reading(entry.acc.fdinfo_vram_kib, fdinfo_dir)
    };
    let gtt = if entry.acc.gtt_malformed {
        Reading::Malformed
    } else {
        fdinfo_reading(entry.acc.fdinfo_gtt_kib, fdinfo_dir)
    };
    ProcessRow {
        pid: entry.pid,
        name,
        bdf: clone_bdf(&entry.bdf),
        fdinfo_vram_bytes: vram,
        fdinfo_gtt_bytes: gtt,
        kfd_vram_bytes: match entry.acc.kfd_vram_bytes {
            Some(k) => k,
            None => Reading::Absent,
        },
        container,
    }
}

/// A reading's value, zero without one.
pub open spec fn value_or_zero(r: Reading<u64>) -> int {
    match r {
        Reading::Value(v) => v as int,
        _ => 0,
    }
}

/// A row's attributed memory: the largest of its three figures.
pub open spec fn row_key(r: ProcessRow) -> int {
    let a = value_or_zero(r.fdinfo_vram_bytes);
    let b = value_or_zero(r.fdinfo_gtt_bytes);
    let c = value_or_zero(r.kfd_vram_bytes);
    let ab = if a >= b {
        a
    } else {
        b
    };
    if ab >= c {
        ab
    } else {
        c
    }
}

/// Display order: more attributed memory first, then lower PID.
pub open spec fn row_before(a: ProcessRow, b: ProcessRow) -> bool {
    row_key(a) > row_key(b) || (row_key(a) == row_key(b) && a.pid <= b.pid)
}

fn value_or_zero_exec(r: &Reading<u64>) -> (v: u64)
    ensures
        v == value_or_zero(*r),
{
    match r {
        Reading::Value(v) => *v,
        _ => 0,
    }
}

fn row_key_exec(r: &ProcessRow) -> (k: u64)
    ensures
        k == row_key(*r),
{
    let a = value_or_zero_exec(&r.fdinfo_vram_bytes);
    let b = value_or_zero_exec(&r.fdinfo_gtt_bytes);
    let c = value_or_zero_exec(&r.kfd_vram_bytes);
    let ab = if a >= b {
        a
    } else {
        b
    };
    if ab >= c {
        ab
    } else {
        c
    }
}

/// Sorts rows by attributed memory, descending, then PID ascending.
pub fn sort_rows(rows: Vec<ProcessRow>) -> (out: Vec<ProcessRow>)
    ensures
        out@.to_multiset() == rows@.to_multiset(),
        forall|i: int, j: int| 0 <= i < j < out@.len() ==> row_before(#[trigger] out@[i], #[trigger] out@[j]),
{
    broadcast use vstd::multiset::group_multiset_axioms;
    broadcast use vstd::seq_lib::group_to_multiset_ensures;

    let mut rest = rows;
    let mut out: Vec<ProcessRow> = Vec::new();
    let ghost input = rest@;
    proof {
        assert(out@.to_multiset() =~= vstd::multiset::Multiset::<ProcessRow>::empty());
        assert(out@.to_multiset().add(rest@.to_multiset()) =~= input.to_multiset());
    }
    while rest.len() > 0
        invariant
            out@.to_multiset().add(rest@.to_multiset()) == input.to_multiset(),
            forall|i: int, j: int| 0 <= i < j < out@.len() ==> row_before(#[trigger] out@[i], #[trigger] out@[j]),
            forall|i: int, j: int| 0 <= i < out@.len() && 0 <= j < rest@.len() ==> row_before(#[trigger] out@[i], #[trigger] rest@[j]),
        decreases rest.len(),
    {
        let mut best: usize = 0;
        let mut i: usize = 1;
        while i < rest.len()
            invariant
                1 <= i <= rest@.len(),
                best < i,
                forall|j: int| 0 <= j < i ==> row_before(rest@[best as int], #[trigger] rest@[j]),
            decreases rest.len() - i,
        {
            let ki = row_key_exec(&rest[i]);
            let kb = row_key_exec(&rest[best]);
            if ki > kb || (ki == kb && rest[i].pid < rest[best].pid) {
                best = i;
            }
            i = i + 1;
        }
        let ghost before_rest = rest@;
        let x = rest.remove(best);
        proof {
            vstd::seq_lib::to_multiset_remove(before_rest, best as int);
            assert(x == before_rest[best as int]);
            assert(before_rest.contains(x));
            vstd::seq_lib::to_multiset_contains(before_rest, x);
            assert(before_rest.to_multiset().count(x) > 0);
        }
        let ghost before_out = out@;
        out.push(x);
        proof {
            vstd::seq_lib::to_multiset_build(before_out, x);
            assert(out@.to_multiset() == before_out.to_multiset().insert(x));
            assert(out@.to_multiset().add(rest@.to_multiset()) =~= input.to_multiset());
            assert forall|a: int, b: int| 0 <= a < out@.len() && 0 <= b < rest@.len() implies row_before(
                #[trigger] out@[a],
                #[trigger] rest@[b],
            ) by {
                if b < best {
                    assert(rest@[b] == before_rest[b]);
                } else {
                    assert(rest@[b] == before_rest[b + 1]);
                }
                if a < before_out.len() {
                    assert(out@[a] == before_out[a]);
                }
            }
            assert forall|a: int, b: int| 0 <= a < b < out@.len() implies row_before(
                #[trigger] out@[a],
                #[trigger] out@[b],
            ) by {
                if b == before_out.len() {
                    assert(out@[a] == before_out[a]);
                    assert(row_before(before_out[a], before_rest[best as int]));
                } else {
                    assert(out@[a] == before_out[a]);
                    assert(out@[b] == before_out[b]);
                }
            }
        }
    }
    proof {
        assert(rest@.to_multiset() =~= vstd::multiset::Multiset::<ProcessRow>::empty());
        assert(out@.to_multiset() =~= input.to_multiset());
    }
    out
}

/// Clones a row exactly.
pub fn clone_row(r: &ProcessRow) -> (c: ProcessRow)
    ensures
        c == *r,
{
    ProcessRow {
        pid: r.pid,
        name: match &r.name {
            Reading::Value(s) => Reading::Value(s.clone()),
            Reading::Absent => Reading::Absent,
            Reading::Sentinel => Reading::Sentinel,
            Reading::Asleep => Reading::Asleep,
            Reading::PermissionDenied => Reading::PermissionDenied,
            Reading::UnsupportedDriver => Reading::UnsupportedDriver,
            Reading::Malformed => Reading::Malformed,
            Reading::Error => Reading::Error,
        },
        bdf: clone_bdf(&r.bdf),
        fdinfo_vram_bytes: r.fdinfo_vram_bytes,
        fdinfo_gtt_bytes: r.fdinfo_gtt_bytes,
        kfd_vram_bytes: r.kfd_vram_bytes,
        container: match &r.container {
            Some(s) => Some(s.clone()),
            None => None,
        },
    }
}

// ---------------------------------------------------------------------------
// KFD topology
// ---------------------------------------------------------------------------

/// The `domain` and `location_id` a KFD node's `properties` declare: each
/// line's first two whitespace-separated words; a malformed domain reads as
/// zero, a malformed location as none; later lines win.
pub open spec fn properties_step(acc: (u64, Option<u64>), line: Seq<char>) -> (u64, Option<u64>) {
    let words = words_of(line);
    if words.len() >= 2 && words[0] == "domain"@ {
        (
            match parse_u64_spec(words[1]) {
                Some(d) => d,
                None => 0,
            },
            acc.1,
        )
    } else if words.len() >= 2 && words[0] == "location_id"@ {
        (acc.0, parse_u64_spec(words[1]))
    } else {
        acc
    }
}

/// `properties_step` over lines, in order.
pub open spec fn properties_fold(lines: Seq<Seq<char>>) -> (u64, Option<u64>)
    decreases lines.len(),
{
    if lines.len() == 0 {
        (0, None)
    } else {
        properties_step(properties_fold(lines.drop_last()), lines.last())
    }
}

/// `str::split_whitespace`: the maximal runs of non-whitespace characters.
pub open spec fn words_of(s: Seq<char>) -> Seq<Seq<char>>
    decreases s.len(),
{
    if s.len() == 0 {
        Seq::empty()
    } else if crate::text::is_whitespace(s[0]) {
        words_of(s.drop_first())
    } else {
        let w = word_len(s);
        proof {
            lemma_word_len(s);
        }
        seq![s.take(w)] + words_of(s.skip(w))
    }
}

/// Length of the leading non-whitespace run.
pub open spec fn word_len(s: Seq<char>) -> int
    decreases s.len(),
{
    if s.len() == 0 || crate::text::is_whitespace(s[0]) {
        0
    } else {
        1 + word_len(s.drop_first())
    }
}

pub proof fn lemma_word_len(s: Seq<char>)
    ensures
        0 <= word_len(s) <= s.len(),
        s.len() > 0 && !crate::text::is_whitespace(s[0]) ==> word_len(s) >= 1,
    decreases s.len(),
{
    if s.len() > 0 && !crate::text::is_whitespace(s[0]) {
        lemma_word_len(s.drop_first());
    }
}

} // verus!

verus! {

proof fn lemma_word_len_is(s: Seq<char>, m: int)
    requires
        0 <= m <= s.len(),
        forall|j: int| 0 <= j < m ==> !crate::text::is_whitespace(#[trigger] s[j]),
        m == s.len() || crate::text::is_whitespace(s[m]),
    ensures
        word_len(s) == m,
    decreases m,
{
    if m > 0 {
        assert forall|j: int| 0 <= j < m - 1 implies !crate::text::is_whitespace(
            #[trigger] s.drop_first()[j],
        ) by {
            assert(s.drop_first()[j] == s[j + 1]);
        }
        if m < s.len() {
            assert(s.drop_first()[m - 1] == s[m]);
        }
        lemma_word_len_is(s.drop_first(), m - 1);
    }
}

/// Splits text into whitespace-separated words (`str::split_whitespace`).
pub fn split_words(s: &Vec<char>) -> (r: Vec<Vec<char>>)
    ensures
        r@.len() == words_of(s@).len(),
        forall|i: int| 0 <= i < r@.len() ==> (#[trigger] r@[i])@ == words_of(s@)[i],
{
    let mut out: Vec<Vec<char>> = Vec::new();
    let ghost mut done: Seq<Seq<char>> = Seq::empty();
    let mut pos: usize = 0;
    proof {
        assert(s@.skip(0) =~= s@);
        assert(done + words_of(s@.skip(0)) =~= words_of(s@));
    }
    while pos < s.len()
        invariant
            pos <= s.len(),
            out@.len() == done.len(),
            forall|i: int| 0 <= i < out@.len() ==> (#[trigger] out@[i])@ == done[i],
            done + words_of(s@.skip(pos as int)) == words_of(s@),
        decreases s.len() - pos,
    {
        let ghost rest = s@.skip(pos as int);
        if crate::text::char_is_whitespace(s[pos]) {
            proof {
                assert(rest[0] == s@[pos as int]);
                assert(rest.drop_first() =~= s@.skip(pos + 1));
            }
            pos = pos + 1;
        } else {
            let mut end = pos;
            while end < s.len() && !crate::text::char_is_whitespace(s[end])
                invariant
                    pos <= end <= s.len(),
                    forall|j: int| pos <= j < end ==> !crate::text::is_whitespace(#[trigger] s@[j]),
                decreases s.len() - end,
            {
                end = end + 1;
            }
            proof {
                assert forall|j: int| 0 <= j < end - pos implies !crate::text::is_whitespace(
                    #[trigger] rest[j],
                ) by {
                    assert(rest[j] == s@[pos + j]);
                }
                if end < s.len() {
                    assert(rest[end - pos] == s@[end as int]);
                }
                lemma_word_len_is(rest, end - pos);
                assert(rest[0] == s@[pos as int]);
            }
            let word = slice_chars(s, pos, end);
            proof {
                assert(word@ =~= rest.take(end - pos));
                assert(rest.skip(end - pos) =~= s@.skip(end as int));
                done = done.push(word@);
                assert(done + words_of(s@.skip(end as int)) =~= words_of(s@));
            }
            out.push(word);
            pos = end;
        }
    }
    proof {
        assert(s@.skip(pos as int) =~= Seq::<char>::empty());
        assert(done =~= words_of(s@));
    }
    out
}

/// Reads a KFD node's `properties`: its `domain` and `location_id`.
#[verifier::loop_isolation(false)]
pub fn kfd_properties(text: &str) -> (r: (u64, Option<u64>))
    ensures
        r == properties_fold(lines_of(text@)),
{
    let lines = split_lines(&chars_of(text));
    let ghost all = lines_of(text@);
    let mut domain: u64 = 0;
    let mut location: Option<u64> = None;
    let mut i: usize = 0;
    proof {
        assert(all.take(0) =~= Seq::<Seq<char>>::empty());
        reveal_strlit("domain");
        reveal_strlit("location_id");
    }
    while i < lines.len()
        invariant
            i <= lines@.len(),
            lines@.len() == all.len(),
            forall|j: int| 0 <= j < lines@.len() ==> (#[trigger] lines@[j])@ == all[j],
            (domain, location) == properties_fold(all.take(i as int)),
        decreases lines.len() - i,
    {
        proof {
            assert(all.take(i + 1).drop_last() =~= all.take(i as int));
            assert(all.take(i + 1).last() == lines@[i as int]@);
        }
        let words = split_words(&lines[i]);
        if words.len() >= 2 {
            let first = string_of(&words[0]);
            if crate::text::same_text(first.as_str(), "domain") {
                domain = match parse_u64(&words[1]) {
                    Some(d) => d,
                    None => 0,
                };
            } else if crate::text::same_text(first.as_str(), "location_id") {
                location = parse_u64(&words[1]);
            }
        }
        i = i + 1;
    }
    proof {
        assert(all.take(lines@.len() as int) =~= all);
    }
    (domain, location)
}

/// The PCI address of a KFD node from its domain and `location_id`
/// (bus bits 8–15, device 3–7, function 0–2).
pub fn kfd_node_bdf(domain: u64, location: u64) -> (r: Result<PciBdf, crate::model::InvalidPciBdf>)
    ensures
        ({
            let text = crate::model::bdf_parts_text(
                domain,
                (location >> 8) & 0xFF,
                (location >> 3) & 0x1F,
                location & 0x7,
            );
            &&& is_bdf_text(text) ==> (r matches Ok(b) && b@ == text)
            &&& !is_bdf_text(text) ==> r is Err
        }),
{
    let bus = (location >> 8) & 0xFF;
    let device = (location >> 3) & 0x1F;
    let function = location & 0x7;
    PciBdf::from_parts(domain, bus, device, function)
}

/// Rows of the scoped GPU, keeping rows without attribution so a
/// permission limitation is never silently hidden. `in_scope[i]` says
/// whether row `i`'s address resolves to the scoped GPU.
pub fn scoped_rows(rows: &Vec<ProcessRow>, in_scope: &Vec<bool>) -> (r: Vec<ProcessRow>)
    requires
        in_scope@.len() == rows@.len(),
    ensures
        r@ == filter_scoped(rows@, in_scope@),
{
    let mut out: Vec<ProcessRow> = Vec::new();
    let mut i: usize = 0;
    while i < rows.len()
        invariant
            i <= rows@.len(),
            in_scope@.len() == rows@.len(),
            out@ == filter_scoped(rows@.take(i as int), in_scope@.take(i as int)),
        decreases rows.len() - i,
    {
        proof {
            assert(rows@.take(i + 1).drop_last() =~= rows@.take(i as int));
            assert(in_scope@.take(i + 1).drop_last() =~= in_scope@.take(i as int));
        }
        if rows[i].bdf.is_none() || in_scope[i] {
            out.push(clone_row(&rows[i]));
        }
        i = i + 1;
    }
    proof {
        assert(rows@.take(rows@.len() as int) =~= rows@);
        assert(in_scope@.take(rows@.len() as int) =~= in_scope@);
    }
    out
}

/// The rows kept by the scope filter, in order.
pub open spec fn filter_scoped(rows: Seq<ProcessRow>, in_scope: Seq<bool>) -> Seq<ProcessRow>
    decreases rows.len(),
{
    if rows.len() == 0 || in_scope.len() != rows.len() {
        Seq::empty()
    } else {
        let prefix = filter_scoped(rows.drop_last(), in_scope.drop_last());
        if rows.last().bdf is None || in_scope.last() {
            prefix.push(rows.last())
        } else {
            prefix
        }
    }
}


/// What reading one association's process gave: its `comm`, its container,
/// and whether its fdinfo directory could be listed.
#[derive(Debug)]
pub struct RowReads {
    pub name: Reading<String>,
    pub container: Option<String>,
    pub fdinfo_dir: Reading<()>,
}

/// The association a row reports.
pub open spec fn row_key_of(r: ProcessRow) -> (u32, Option<Seq<char>>) {
    (r.pid, bdf_view(r.bdf))
}

/// The row of entry `e` with what reading its process gave.
pub open spec fn expected_row(e: EvidenceEntry, reads: RowReads) -> ProcessRow {
    ProcessRow {
        pid: e.pid,
        name: reads.name,
        bdf: e.bdf,
        fdinfo_vram_bytes: fdinfo_field(e.acc.fdinfo_vram_kib, e.acc.vram_malformed, reads.fdinfo_dir),
        fdinfo_gtt_bytes: fdinfo_field(e.acc.fdinfo_gtt_kib, e.acc.gtt_malformed, reads.fdinfo_dir),
        kfd_vram_bytes: match e.acc.kfd_vram_bytes {
            Some(k) => k,
            None => Reading::<u64>::Absent,
        },
        container: reads.container,
    }
}

/// The rows of every entry, in entry order.
pub open spec fn expected_rows(entries: Seq<EvidenceEntry>, reads: Seq<RowReads>) -> Seq<ProcessRow> {
    Seq::new(entries.len(), |i: int| expected_row(entries[i], reads[i]))
}

/// A row reports its association's evidence: an fdinfo figure with a value
/// is the summed resident KiB times 1024, and the KFD figure is the KFD
/// reading alone.
pub open spec fn reports_evidence(ev: Map<(u32, Option<Seq<char>>), Accumulator>, r: ProcessRow) -> bool {
    &&& ev.contains_key(row_key_of(r))
    &&& r.fdinfo_vram_bytes matches Reading::Value(b) ==> (ev[row_key_of(r)].fdinfo_vram_kib matches Some(
        k,
    ) && b == k * 1024)
    &&& r.fdinfo_gtt_bytes matches Reading::Value(b) ==> (ev[row_key_of(r)].fdinfo_gtt_kib matches Some(
        k,
    ) && b == k * 1024)
    &&& r.kfd_vram_bytes == (match ev[row_key_of(r)].kfd_vram_bytes {
        Some(k) => k,
        None => Reading::<u64>::Absent,
    })
}

/// Builds and orders the rows of a scan: one per association, in display
/// order. No two rows report the same process and device, every fdinfo
/// figure is KiB × 1024 of that association's evidence, and KFD bytes are
/// reported apart from fdinfo.
pub fn scan_rows(evidence: &ProcessEvidence, reads: Vec<RowReads>) -> (rows: Vec<ProcessRow>)
    requires
        evidence.wf(),
        reads@.len() == evidence.spec_entries().len(),
    ensures
        rows@.to_multiset() == expected_rows(evidence.spec_entries(), reads@).to_multiset(),
        forall|i: int, j: int| 0 <= i < j < rows@.len() ==> row_before(#[trigger] rows@[i], #[trigger] rows@[j]),
        forall|i: int, j: int|
            0 <= i < j < rows@.len() ==> row_key_of(#[trigger] rows@[i]) != row_key_of(#[trigger] rows@[j]),
        forall|i: int| 0 <= i < rows@.len() ==> reports_evidence(evidence.evidence(), #[trigger] rows@[i]),
{
    let entries = evidence.entries();
    let ghost all = reads@;
    let ghost expected = expected_rows(evidence.spec_entries(), all);
    let mut rest = reads;
    let mut built: Vec<ProcessRow> = Vec::new();
    let mut i: usize = 0;
    while i < entries.len()
        invariant
            entries@ == evidence.spec_entries(),
            all.len() == entries@.len(),
            i <= entries@.len(),
            rest@ == all.subrange(i as int, all.len() as int),
            built@ == expected.subrange(0, i as int),
            expected == expected_rows(evidence.spec_entries(), all),
        decreases entries.len() - i,
    {
        let r = rest.remove(0);
        assert(r == all[i as int]);
        let row = row_of(&entries[i], r.name, r.container, r.fdinfo_dir);
        built.push(row);
        i = i + 1;
        assert(rest@ =~= all.subrange(i as int, all.len() as int));
        assert(built@ =~= expected.subrange(0, i as int));
    }
    assert(built@ =~= expected);
    proof {
        lemma_expected_rows_law(evidence, all);
    }
    let rows = sort_rows(built);
    proof {
        lemma_permutation_keeps_row_law(evidence.evidence(), expected, rows@);
    }
    rows
}

/// The expected rows of well-formed evidence have distinct associations
/// and report their evidence.
proof fn lemma_expected_rows_law(evidence: &ProcessEvidence, reads: Seq<RowReads>)
    requires
        evidence.wf(),
        reads.len() == evidence.spec_entries().len(),
    ensures
        ({
            let b = expected_rows(evidence.spec_entries(), reads);
            &&& forall|i: int, j: int|
                0 <= i < j < b.len() ==> row_key_of(#[trigger] b[i]) != row_key_of(#[trigger] b[j])
            &&& forall|i: int| 0 <= i < b.len() ==> reports_evidence(evidence.evidence(), #[trigger] b[i])
        }),
{
    let es = evidence.spec_entries();
    let b = expected_rows(es, reads);
    evidence.lemma_entries_are_evidence();
    assert forall|i: int, j: int| 0 <= i < j < b.len() implies row_key_of(#[trigger] b[i]) != row_key_of(
        #[trigger] b[j],
    ) by {
        assert(row_key_of(b[i]) == entry_key(es[i]));
        assert(row_key_of(b[j]) == entry_key(es[j]));
    }
    assert forall|i: int| 0 <= i < b.len() implies reports_evidence(evidence.evidence(), #[trigger] b[i]) by {
        assert(row_key_of(b[i]) == entry_key(es[i]));
        assert(evidence.evidence()[entry_key(es[i])] == es[i].acc);
    }
}

/// A reordering of rows with distinct associations that report their
/// evidence keeps both properties.
proof fn lemma_permutation_keeps_row_law(
    ev: Map<(u32, Option<Seq<char>>), Accumulator>,
    b: Seq<ProcessRow>,
    t: Seq<ProcessRow>,
)
    requires
        t.to_multiset() == b.to_multiset(),
        forall|i: int, j: int| 0 <= i < j < b.len() ==> row_key_of(#[trigger] b[i]) != row_key_of(#[trigger] b[j]),
        forall|i: int| 0 <= i < b.len() ==> reports_evidence(ev, #[trigger] b[i]),
    ensures
        forall|i: int, j: int| 0 <= i < j < t.len() ==> row_key_of(#[trigger] t[i]) != row_key_of(#[trigger] t[j]),
        forall|i: int| 0 <= i < t.len() ==> reports_evidence(ev, #[trigger] t[i]),
{
    broadcast use vstd::multiset::group_multiset_axioms;
    broadcast use vstd::seq_lib::group_to_multiset_ensures;

    assert(b.no_duplicates()) by {
        assert forall|i: int, j: int| 0 <= i < b.len() && 0 <= j < b.len() && i != j implies b[i] != b[j] by {
            if i < j {
                assert(row_key_of(b[i]) != row_key_of(b[j]));
            } else {
                assert(row_key_of(b[j]) != row_key_of(b[i]));
            }
        }
    }
    b.lemma_multiset_has_no_duplicates();
    t.lemma_multiset_has_no_duplicates_conv();
    assert forall|i: int| #![trigger t[i]] 0 <= i < t.len() implies exists|a: int| 0 <= a < b.len() && #[trigger] b[a] == t[i] by {
        assert(t.contains(t[i]));
        assert(t.to_multiset().count(t[i]) > 0);
        assert(b.to_multiset().count(t[i]) > 0);
        assert(b.contains(t[i]));
    }
    assert forall|i: int| 0 <= i < t.len() implies reports_evidence(ev, #[trigger] t[i]) by {
        let a = choose|a: int| 0 <= a < b.len() && #[trigger] b[a] == t[i];
        assert(reports_evidence(ev, b[a]));
    }
    assert forall|i: int, j: int| 0 <= i < j < t.len() implies row_key_of(#[trigger] t[i]) != row_key_of(
        #[trigger] t[j],
    ) by {
        let a = choose|a: int| 0 <= a < b.len() && #[trigger] b[a] == t[i];
        let c = choose|c: int| 0 <= c < b.len() && #[trigger] b[c] == t[j];
        assert(t[i] != t[j]);
        assert(a != c);
        if a < c {
            assert(row_key_of(b[a]) != row_key_of(b[c]));
        } else {
            assert(row_key_of(b[c]) != row_key_of(b[a]));
        }
    }
}

} // verus!
