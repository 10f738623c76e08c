//! An in-memory backing store with the crash semantics of a POSIX filesystem.
//!
//! - A write or a change of length is volatile until the file's data is synced.
//! - The creation or removal of a file is volatile until its parent directory
//!   is synced.
//! - On a crash, each volatile operation is independently kept or lost.
//! - Where tearing is enabled, the last surviving write of a file may persist
//!   only in part, at sector granularity; every write before it is kept whole or
//!   lost.
//! - A removal that was never synced may resurrect the file.
//! - A creation that was never synced may vanish even if the data was synced.
//!
//! Operations that a test may make fail take the injected error as their last
//! argument.

use rand::rngs::StdRng;
use vstd::prelude::*;

use crate::chance::{below_usize, chance};
use crate::model::copy_bytes;
use crate::table::Table;
use crate::text::{has_char, insert_ordered, join2, join5, same, show, split_text, strip_prefix};

verus! {

broadcast use vstd::seq::group_seq_axioms;

/// The kinds of failure that storage operations report.
#[derive(Debug, Clone, Copy, PartialEq, Eq, Structural)]
pub enum ErrorKind {
    NotFound,
    UnexpectedEof,
    WouldBlock,
    InvalidData,
    InvalidInput,
    StorageFull,
    Other,
}

/// A failed storage operation.
#[derive(Debug)]
pub struct BackingError {
    pub kind: ErrorKind,
    pub message: String,
}

/// An operation that a test may make fail.
#[derive(Debug)]
#[allow(inconsistent_fields)]
pub enum FaultOp<'a> {
    Open { path: &'a str, create: bool },
    WriteAt { path: &'a str, offset: u64, len: usize },
    SetLen { path: &'a str, len: u64 },
    SyncData { path: &'a str },
    SyncDir { dir: &'a str },
    Remove { path: &'a str },
    Rename { from: &'a str, to: &'a str },
}

/// A volatile operation on a file.
#[derive(Debug)]
pub enum Pend {
    Write { offset: u64, data: Vec<u8> },
    SetLen(u64),
}

/// The model of a volatile operation.
pub enum Change {
    Write { offset: nat, data: Seq<u8> },
    SetLen(nat),
}

impl View for Pend {
    type V = Change;

    open spec fn view(&self) -> Change {
        match *self {
            Pend::Write { offset, data } => Change::Write { offset: offset as nat, data: data@ },
            Pend::SetLen(len) => Change::SetLen(len as nat),
        }
    }
}

/// A file and what is known durable about it.
#[derive(Debug)]
pub struct FileState {
    /// Content known durable. `None` = no durable content.
    pub durable: Option<Vec<u8>>,
    /// Whether the directory entry is durable.
    pub dirent_durable: bool,
    /// Volatile existence and pending operations. `None` = removed in the
    /// volatile view.
    pub volatile: Option<Volatile>,
}

/// What happened to a file since its data was last synced.
#[derive(Debug)]
pub struct Volatile {
    /// If false, the volatile view starts from an empty file (a fresh inode
    /// after a re-creation), not from the durable content.
    pub base_durable: bool,
    pub pending: Vec<Pend>,
}

/// The model of a file.
pub struct FileView {
    pub durable: Option<Seq<u8>>,
    pub dirent_durable: bool,
    pub volatile: Option<VolatileView>,
}

/// The model of what happened since the last sync.
pub struct VolatileView {
    pub base_durable: bool,
    pub pending: Seq<Change>,
}

/// The models of a list of operations.
pub open spec fn changes(v: Seq<Pend>) -> Seq<Change> {
    v.map_values(|p: Pend| p@)
}

impl View for Volatile {
    type V = VolatileView;

    open spec fn view(&self) -> VolatileView {
        VolatileView { base_durable: self.base_durable, pending: changes(self.pending@) }
    }
}

impl View for FileState {
    type V = FileView;

    open spec fn view(&self) -> FileView {
        FileView {
            durable: match self.durable {
                Some(d) => Some(d@),
                None => None,
            },
            dirent_durable: self.dirent_durable,
            volatile: match self.volatile {
                Some(v) => Some(v@),
                None => None,
            },
        }
    }
}

// ---------- contents ----------

/// `data` cut or padded with zeros to length `n`.
pub open spec fn resized(data: Seq<u8>, n: nat) -> Seq<u8> {
    Seq::new(
        n,
        |i: int| if i < data.len() {
            data[i]
        } else {
            0u8
        },
    )
}

/// `data` with `src` written at `offset`, padded with zeros where the write
/// starts or ends past the end.
pub open spec fn overwritten(data: Seq<u8>, offset: nat, src: Seq<u8>) -> Seq<u8> {
    let end = offset + src.len();
    let n = if data.len() < end {
        end
    } else {
        data.len()
    };
    Seq::new(
        n,
        |i: int| if offset <= i < end {
            src[i - offset]
        } else if i < data.len() {
            data[i]
        } else {
            0u8
        },
    )
}

/// The content after one operation.
pub open spec fn applied(data: Seq<u8>, change: Change) -> Seq<u8> {
    match change {
        Change::Write { offset, data: src } => overwritten(data, offset, src),
        Change::SetLen(len) => resized(data, len),
    }
}

/// The content after the operations in order.
pub open spec fn all_applied(data: Seq<u8>, pending: Seq<Change>) -> Seq<u8>
    decreases pending.len(),
{
    if pending.len() == 0 {
        data
    } else {
        applied(all_applied(data, pending.drop_last()), pending.last())
    }
}

/// The operation stays within what a machine can address.
pub open spec fn fits(change: Change) -> bool {
    match change {
        Change::Write { offset, data } => offset + data.len() <= usize::MAX,
        Change::SetLen(len) => len <= usize::MAX,
    }
}

/// All pending operations stay within what a machine can address.
pub open spec fn all_fit(pending: Seq<Change>) -> bool {
    forall|i: int| 0 <= i < pending.len() ==> fits(#[trigger] pending[i])
}

/// What the pending operations start from.
pub open spec fn base_of(file: FileView, base_durable: bool) -> Seq<u8> {
    if base_durable && file.durable is Some {
        file.durable->0
    } else {
        Seq::empty()
    }
}

/// What a reader sees while nothing crashes.
pub open spec fn content(file: FileView) -> Option<Seq<u8>> {
    match file.volatile {
        Some(v) => Some(all_applied(base_of(file, v.base_durable), v.pending)),
        None => None,
    }
}

/// A file whose content is durable and unchanged since.
pub open spec fn settled(data: Seq<u8>) -> FileView {
    FileView {
        durable: Some(data),
        dirent_durable: true,
        volatile: Some(VolatileView { base_durable: true, pending: Seq::empty() }),
    }
}

fn resize(data: &mut Vec<u8>, n: usize)
    ensures
        final(data)@ == resized(old(data)@, n as nat),
{
    if n <= data.len() {
        data.truncate(n);
    }
    let ghost start = data@;
    let ghost first = old(data)@;
    assert(start =~= first.take(least(first.len() as int, n as int)));
    while data.len() < n
        invariant
            data@.len() <= n,
            data@.len() >= start.len(),
            start == first.take(least(first.len() as int, n as int)),
            data@.len() < n ==> start.len() == first.len(),
            forall|i: int| 0 <= i < start.len() ==> data@[i] == start[i],
            forall|i: int| start.len() <= i < data@.len() ==> data@[i] == 0u8,
        decreases n - data@.len(),
    {
        data.push(0);
    }
    assert forall|i: int| 0 <= i < n implies data@[i] == resized(first, n as nat)[i] by {
        if i < start.len() {
            assert(data@[i] == start[i]);
        }
    }
    assert(data@ =~= resized(first, n as nat));
}

/// `src[from..to]` written at `start`.
fn overwrite(data: &mut Vec<u8>, start: usize, src: &[u8], from: usize, to: usize)
    requires
        from <= to <= src@.len(),
        start + (to - from) <= usize::MAX,
    ensures
        final(data)@ == overwritten(
            old(data)@,
            start as nat,
            src@.subrange(from as int, to as int),
        ),
{
    let n: usize = to - from;
    let end: usize = start + n;
    if data.len() < end {
        resize(data, end);
    }
    let ghost wide = data@;
    let mut i: usize = 0;
    while i < n
        invariant
            i <= n,
            n == to - from,
            from <= to <= src@.len(),
            end == start + n,
            end <= data@.len(),
            data@.len() == wide.len(),
            forall|k: int| 0 <= k < wide.len() ==> #[trigger] data@[k] == if start <= k < start + i {
                src@[from + (k - start)]
            } else {
                wide[k]
            },
        decreases n - i,
    {
        data.set(start + i, src[from + i]);
        i += 1;
    }
    assert(data@ =~= overwritten(
        old(data)@,
        start as nat,
        src@.subrange(from as int, to as int),
    ));
}

fn apply(data: &mut Vec<u8>, p: &Pend)
    requires
        fits(p@),
    ensures
        final(data)@ == applied(old(data)@, p@),
{
    match p {
        Pend::Write { offset, data: src } => {
            overwrite(data, *offset as usize, src.as_slice(), 0, src.len());
            assert(src@.subrange(0, src@.len() as int) =~= src@);
        },
        Pend::SetLen(len) => resize(data, *len as usize),
    }
}

fn base(file: &FileState, base_durable: bool) -> (r: Vec<u8>)
    ensures
        r@ == base_of(file@, base_durable),
{
    match (&file.durable, base_durable) {
        (Some(d), true) => copy_bytes(d.as_slice()),
        _ => Vec::new(),
    }
}

fn compose(file: &FileState) -> (r: Option<Vec<u8>>)
    requires
        file@.volatile matches Some(v) ==> all_fit(v.pending),
    ensures
        match r {
            Some(data) => content(file@) == Some(data@),
            None => content(file@) is None,
        },
{
    match &file.volatile {
        Some(v) => {
            let mut data = base(file, v.base_durable);
            let ghost start = data@;
            let ghost all = changes(v.pending@);
            let mut i: usize = 0;
            assert(all.take(0) =~= Seq::<Change>::empty());
            while i < v.pending.len()
                invariant
                    i <= v.pending.len(),
                    all == changes(v.pending@),
                    all_fit(all),
                    data@ == all_applied(start, all.take(i as int)),
                decreases v.pending.len() - i,
            {
                proof {
                    assert(all.take(i + 1).drop_last() =~= all.take(i as int));
                    assert(all.take(i + 1).last() == v.pending@[i as int]@);
                    assert(all[i as int] == v.pending@[i as int]@);
                }
                apply(&mut data, &v.pending[i]);
                i += 1;
            }
            assert(all.take(i as int) =~= all);
            Some(data)
        },
        None => None,
    }
}

fn copy_pend(p: &Pend) -> (r: Pend)
    ensures
        r@ == p@,
{
    match p {
        Pend::Write { offset, data } => Pend::Write {
            offset: *offset,
            data: copy_bytes(data.as_slice()),
        },
        Pend::SetLen(len) => Pend::SetLen(*len),
    }
}

fn copy_pending(v: &Vec<Pend>) -> (r: Vec<Pend>)
    ensures
        changes(r@) == changes(v@),
{
    let mut out: Vec<Pend> = Vec::new();
    let mut i: usize = 0;
    while i < v.len()
        invariant
            i <= v.len(),
            out.len() == i,
            forall|k: int| 0 <= k < i ==> #[trigger] out@[k]@ == v@[k]@,
        decreases v.len() - i,
    {
        out.push(copy_pend(&v[i]));
        i += 1;
    }
    assert(changes(out@) =~= changes(v@));
    out
}

fn copy_durable(d: &Option<Vec<u8>>) -> (r: Option<Vec<u8>>)
    ensures
        match (r, *d) {
            (Some(a), Some(b)) => a@ == b@,
            (None, None) => true,
            _ => false,
        },
{
    match d {
        Some(bytes) => Some(copy_bytes(bytes.as_slice())),
        None => None,
    }
}

fn settle(data: Vec<u8>) -> (r: FileState)
    ensures
        r@ == settled(data@),
{
    let r = FileState {
        durable: Some(data),
        dirent_durable: true,
        volatile: Some(Volatile { base_durable: true, pending: Vec::new() }),
    };
    assert(changes(r.volatile->0.pending@) =~= Seq::<Change>::empty());
    r
}

// ---------- what a crash does to one file ----------

/// The part of a torn write that reached the disk.
#[derive(Debug, Clone, Copy, PartialEq, Eq, Structural)]
pub enum Tear {
    /// Only the first sectors; the file did not grow past them.
    Prefix(usize),
    /// Every sector but this one, which keeps its stale bytes.
    Hole(usize),
}

/// What a crash does to one pending operation.
#[derive(Debug, Clone, Copy, PartialEq, Eq, Structural)]
pub enum OpFate {
    Lost,
    Kept,
    Torn(Tear),
}

/// What a crash does to one file.
#[derive(Debug)]
pub struct Fate {
    /// The volatile change of the directory entry persists.
    pub entry: bool,
    /// One fate for each pending operation.
    pub ops: Vec<OpFate>,
}

/// The view of a [`Fate`].
#[verifier::ext_equal]
pub struct FateView {
    pub entry: bool,
    pub ops: Seq<OpFate>,
}

impl View for Fate {
    type V = FateView;

    open spec fn view(&self) -> FateView {
        FateView { entry: self.entry, ops: self.ops@ }
    }
}

/// The views of fates.
pub open spec fn fate_views(fates: Seq<Fate>) -> Seq<FateView> {
    fates.map_values(|f: Fate| f@)
}

/// The number of sectors that `len` bytes span.
pub open spec fn sectors(len: nat, granularity: nat) -> nat {
    if granularity == 0 {
        0
    } else {
        ((len + granularity - 1) / granularity as int) as nat
    }
}

/// The smaller of the two.
pub open spec fn least(a: int, b: int) -> int {
    if a < b {
        a
    } else {
        b
    }
}

/// The content after a torn write.
pub open spec fn torn(
    data: Seq<u8>,
    offset: nat,
    src: Seq<u8>,
    granularity: nat,
    tear: Tear,
) -> Seq<u8> {
    let n = src.len() as int;
    if n == 0 {
        data
    } else {
        match tear {
            Tear::Prefix(k) => overwritten(data, offset, src.take(least(k * granularity, n))),
            Tear::Hole(h) => {
                let start = h * granularity;
                let end = least(start + granularity, n);
                let front = overwritten(data, offset, src.take(start));
                if end < n {
                    overwritten(front, (offset + end) as nat, src.subrange(end, n))
                } else if front.len() < offset + n {
                    resized(front, (offset + n) as nat)
                } else {
                    front
                }
            },
        }
    }
}

/// The tear names a sector of the write.
pub open spec fn tear_fits(len: nat, granularity: nat, tear: Tear) -> bool {
    len > 0 ==> match tear {
        Tear::Prefix(k) => k < sectors(len, granularity),
        Tear::Hole(h) => h < sectors(len, granularity),
    }
}

/// The content after an operation that met the given fate.
pub open spec fn struck(
    data: Seq<u8>,
    change: Change,
    tearing: Option<nat>,
    fate: OpFate,
) -> Seq<u8> {
    match fate {
        OpFate::Lost => data,
        OpFate::Kept => applied(data, change),
        OpFate::Torn(tear) => match (change, tearing) {
            (Change::Write { offset, data: src }, Some(granularity)) => torn(
                data,
                offset,
                src,
                granularity,
                tear,
            ),
            _ => applied(data, change),
        },
    }
}

/// The content after operations that met the given fates.
pub open spec fn survivors(
    data: Seq<u8>,
    pending: Seq<Change>,
    tearing: Option<nat>,
    fates: Seq<OpFate>,
) -> Seq<u8>
    decreases pending.len(),
{
    if pending.len() == 0 {
        data
    } else {
        struck(
            survivors(data, pending.drop_last(), tearing, fates),
            pending.last(),
            tearing,
            fates[pending.len() - 1],
        )
    }
}

/// The fate is one that this operation can meet: only a write is torn, only
/// where tearing is enabled, and only at one of its sectors.
pub open spec fn op_can_meet(change: Change, tearing: Option<nat>, fate: OpFate) -> bool {
    match fate {
        OpFate::Torn(tear) => match (change, tearing) {
            (Change::Write { data, .. }, Some(granularity)) => tear_fits(
                data.len(),
                granularity,
                tear,
            ),
            _ => false,
        },
        _ => true,
    }
}

/// The fates are ones that these operations can meet: no write survives behind a
/// torn one.
pub open spec fn ops_can_meet(
    pending: Seq<Change>,
    tearing: Option<nat>,
    fates: Seq<OpFate>,
) -> bool {
    &&& fates.len() == pending.len()
    &&& forall|i: int|
        0 <= i < pending.len() ==> op_can_meet(#[trigger] pending[i], tearing, fates[i])
    &&& forall|i: int, j: int|
        #![trigger fates[i], pending[j]]
        0 <= i < j < pending.len() && fates[i] is Torn && pending[j] is Write ==> fates[j] is Lost
}

/// The fate is one that this file can meet.
pub open spec fn can_meet(file: FileView, tearing: Option<nat>, fate: FateView) -> bool {
    match file.volatile {
        Some(v) => ops_can_meet(v.pending, tearing, fate.ops),
        None => true,
    }
}

/// The file after a crash in which it met the given fate.
pub open spec fn after_crash(file: FileView, tearing: Option<nat>, fate: FateView) -> Option<
    FileView,
> {
    match file.volatile {
        None => if !file.dirent_durable || fate.entry {
            None
        } else {
            match file.durable {
                Some(data) => Some(settled(data)),
                None => None,
            }
        },
        Some(v) => if file.dirent_durable || fate.entry {
            Some(
                settled(
                    survivors(base_of(file, v.base_durable), v.pending, tearing, fate.ops),
                ),
            )
        } else {
            None
        },
    }
}

/// A crash may turn the one file into the other.
pub open spec fn may_become(
    before: Option<FileView>,
    after: Option<FileView>,
    tearing: Option<nat>,
) -> bool {
    match before {
        None => after is None,
        Some(file) => exists|fate: FateView| #[trigger]
            can_meet(file, tearing, fate) && after == after_crash(file, tearing, fate),
    }
}

/// The file when every volatile operation is lost.
pub open spec fn all_lost(file: FileView) -> Option<FileView> {
    if file.dirent_durable && file.durable is Some {
        Some(settled(file.durable->0))
    } else {
        None
    }
}

/// The position of the last write among the first `n` operations.
pub open spec fn last_write(pending: Seq<Change>, n: nat) -> Option<nat>
    decreases n,
{
    if n == 0 {
        None
    } else if pending[n - 1] is Write {
        Some((n - 1) as nat)
    } else {
        last_write(pending, (n - 1) as nat)
    }
}

/// The content when all operations persist but the last write, of which only
/// the first `keep` bytes do. What earlier operations wrote behind those bytes
/// stays.
pub open spec fn torn_tail(
    data: Seq<u8>,
    pending: Seq<Change>,
    n: nat,
    last: Option<nat>,
    keep: nat,
) -> Seq<u8>
    decreases n,
{
    if n == 0 {
        data
    } else {
        let before = torn_tail(data, pending, (n - 1) as nat, last, keep);
        match pending[n - 1] {
            Change::Write { offset, data: src } => if last == Some((n - 1) as nat) {
                overwritten(before, offset, src.take(least(keep as int, src.len() as int)))
            } else {
                applied(before, pending[n - 1])
            },
            _ => applied(before, pending[n - 1]),
        }
    }
}

/// The file after a crash that tears the last write of it.
pub open spec fn torn_file(file: FileView, keep: nat) -> FileView
    recommends
        file.volatile is Some,
{
    let v = file.volatile->0;
    let base = base_of(file, v.base_durable);
    let n = v.pending.len();
    settled(torn_tail(base, v.pending, n, last_write(v.pending, n), keep))
}

proof fn lemma_sectors(len: nat, granularity: nat, k: int)
    requires
        granularity > 0,
        len > 0,
        0 <= k < sectors(len, granularity),
    ensures
        0 <= k * granularity < len,
{
    assert(0 <= k * granularity < len) by (nonlinear_arith)
        requires
            granularity > 0,
            len > 0,
            0 <= k,
            k < (len + granularity - 1) / granularity as int,
    {
        let q = (len + granularity - 1) / granularity as int;
        assert(q * granularity <= len + granularity - 1);
        assert((k + 1) * granularity <= q * granularity);
    }
}

fn count_sectors(len: usize, granularity: usize) -> (r: usize)
    requires
        granularity > 0,
    ensures
        r == sectors(len as nat, granularity as nat),
{
    let q: usize = len / granularity;
    proof {
        lemma_count_sectors(len as int, granularity as int);
    }
    if len % granularity == 0 {
        q
    } else {
        q + 1
    }
}

proof fn lemma_count_sectors(len: int, g: int)
    requires
        g > 0,
        len >= 0,
    ensures
        (len + g - 1) / g == if len % g == 0 {
            len / g
        } else {
            len / g + 1
        },
        len % g != 0 ==> len / g + 1 <= len,
{
    let q = len / g;
    let r = len % g;
    assert(len == q * g + r) by (nonlinear_arith)
        requires
            g > 0,
            q == len / g,
            r == len % g,
    ;
    assert(0 <= r < g);
    assert(0 <= q) by (nonlinear_arith)
        requires
            g > 0,
            len >= 0,
            q == len / g,
    ;
    if r == 0 {
        vstd::arithmetic::div_mod::lemma_fundamental_div_mod_converse(len + g - 1, g, q, g - 1);
    } else {
        assert(len + g - 1 == (q + 1) * g + (r - 1)) by (nonlinear_arith)
            requires
                len == q * g + r,
        ;
        vstd::arithmetic::div_mod::lemma_fundamental_div_mod_converse(
            len + g - 1,
            g,
            q + 1,
            r - 1,
        );
        assert(q + 1 <= len) by (nonlinear_arith)
            requires
                len == q * g + r,
                g >= 2,
                r >= 1,
                q >= 0,
        ;
    }
}

/// Persist a write partially: a prefix of its sectors, or every sector but one.
fn apply_torn(data: &mut Vec<u8>, offset: u64, src: &Vec<u8>, granularity: usize, tear: Tear)
    requires
        granularity > 0,
        offset + src@.len() <= usize::MAX,
        tear_fits(src@.len(), granularity as nat, tear),
    ensures
        final(data)@ == torn(old(data)@, offset as nat, src@, granularity as nat, tear),
{
    let n: usize = src.len();
    if n == 0 {
        return ;
    }
    match tear {
        Tear::Prefix(k) => {
            proof {
                lemma_sectors(n as nat, granularity as nat, k as int);
            }
            let keep: usize = k * granularity;
            overwrite(data, offset as usize, src.as_slice(), 0, keep);
            assert(src@.subrange(0, keep as int) =~= src@.take(keep as int));
        },
        Tear::Hole(h) => {
            proof {
                lemma_sectors(n as nat, granularity as nat, h as int);
            }
            let start: usize = h * granularity;
            let end: usize = if n - start <= granularity {
                n
            } else {
                start + granularity
            };
            overwrite(data, offset as usize, src.as_slice(), 0, start);
            assert(src@.subrange(0, start as int) =~= src@.take(start as int));
            if end < n {
                overwrite(data, offset as usize + end, src.as_slice(), end, n);
            } else if data.len() < offset as usize + n {
                resize(data, offset as usize + n);
            }
        },
    }
}

/// The tearing granularity as the model sees it.
pub open spec fn granularity_of(tearing: Option<usize>) -> Option<nat> {
    match tearing {
        Some(g) => Some(g as nat),
        None => None,
    }
}

/// What is left of a file after a crash in which it met `fate`.
pub fn settle_file(file: &FileState, tearing: Option<usize>, fate: &Fate) -> (r: Option<FileState>)
    requires
        tearing != Some(0usize),
        file@.volatile matches Some(v) ==> all_fit(v.pending),
        can_meet(file@, granularity_of(tearing), fate@),
    ensures
        match r {
            Some(f) => after_crash(file@, granularity_of(tearing), fate@) == Some(f@),
            None => after_crash(file@, granularity_of(tearing), fate@) is None,
        },
{
    match &file.volatile {
        None => {
            if !file.dirent_durable || fate.entry {
                None
            } else {
                match &file.durable {
                    Some(data) => Some(settle(copy_bytes(data.as_slice()))),
                    None => None,
                }
            }
        },
        Some(v) => {
            if !(file.dirent_durable || fate.entry) {
                return None;
            }
            let mut data = base(file, v.base_durable);
            let ghost start = data@;
            let ghost all = changes(v.pending@);
            let ghost gran = granularity_of(tearing);
            let mut i: usize = 0;
            assert(all.take(0) =~= Seq::<Change>::empty());
            while i < v.pending.len()
                invariant
                    i <= v.pending.len(),
                    all == changes(v.pending@),
                    all_fit(all),
                    ops_can_meet(all, gran, fate.ops@),
                    gran == granularity_of(tearing),
                    tearing != Some(0usize),
                    data@ == survivors(start, all.take(i as int), gran, fate.ops@),
                decreases v.pending.len() - i,
            {
                proof {
                    assert(all.take(i + 1).drop_last() =~= all.take(i as int));
                    assert(all.take(i + 1).last() == v.pending@[i as int]@);
                    assert(all[i as int] == v.pending@[i as int]@);
                    assert(op_can_meet(all[i as int], gran, fate.ops@[i as int]));
                }
                match fate.ops[i] {
                    OpFate::Lost => {},
                    OpFate::Kept => apply(&mut data, &v.pending[i]),
                    OpFate::Torn(tear) => match (&v.pending[i], tearing) {
                        (Pend::Write { offset, data: src }, Some(g)) => apply_torn(
                            &mut data,
                            *offset,
                            src,
                            g,
                            tear,
                        ),
                        _ => apply(&mut data, &v.pending[i]),
                    },
                }
                i += 1;
            }
            assert(all.take(i as int) =~= all);
            Some(settle(data))
        },
    }
}

// ---------- what is drawn for a crash ----------

/// A coin, and the words that are left.
pub open spec fn coin(words: Map<nat, u32>) -> (bool, Map<nat, u32>) {
    crate::chance::ratio_drawn(words, 1, 2)
}

/// Whether the volatile change of a file's directory entry persists. A coin
/// decides, but for an entry of which nothing is open.
pub open spec fn entry_drawn(file: FileView, words: Map<nat, u32>) -> (bool, Map<nat, u32>) {
    if file.dirent_durable == file.volatile is Some {
        (true, words)
    } else {
        coin(words)
    }
}

/// Which of the first `n` pending operations are kept: one coin for each, in
/// order, if the file persists at all.
pub open spec fn kept_drawn(entry: bool, words: Map<nat, u32>, n: nat) -> (
    Seq<OpFate>,
    Map<nat, u32>,
)
    decreases n,
{
    if n == 0 {
        (Seq::empty(), words)
    } else {
        let (ops, rest) = kept_drawn(entry, words, (n - 1) as nat);
        if entry {
            let (kept, after) = coin(rest);
            (
                ops.push(
                    if kept {
                        OpFate::Kept
                    } else {
                        OpFate::Lost
                    },
                ),
                after,
            )
        } else {
            (ops.push(OpFate::Lost), rest)
        }
    }
}

/// How a kept write of `len` bytes fares: three times in ten it is torn, and then
/// a coin decides between a prefix and a hole, at a sector that is drawn.
pub open spec fn tear_drawn(len: nat, granularity: nat, words: Map<nat, u32>) -> (
    OpFate,
    Map<nat, u32>,
) {
    let (tears, rest) = crate::chance::ratio_drawn(words, 3, 10);
    let n = sectors(len, granularity);
    if !tears {
        (OpFate::Kept, rest)
    } else if n == 0 {
        (OpFate::Torn(Tear::Prefix(0)), rest)
    } else {
        let (prefix, after) = coin(rest);
        let (sector, last) = crate::chance::range_drawn(after, n);
        (
            OpFate::Torn(
                if prefix {
                    Tear::Prefix(sector as usize)
                } else {
                    Tear::Hole(sector as usize)
                },
            ),
            last,
        )
    }
}

/// The last write among the first `n` pending operations that is kept.
pub open spec fn last_kept(pending: Seq<Change>, kept: Seq<OpFate>, n: nat) -> Option<nat>
    decreases n,
{
    if n == 0 {
        None
    } else if pending[n - 1] is Write && kept[n - 1] == OpFate::Kept {
        Some((n - 1) as nat)
    } else {
        last_kept(pending, kept, (n - 1) as nat)
    }
}

/// How the pending operations fare, of which `kept` says which are kept: one
/// draw for the last write that is kept.
pub open spec fn tears_drawn(
    pending: Seq<Change>,
    kept: Seq<OpFate>,
    granularity: nat,
    words: Map<nat, u32>,
) -> (Seq<OpFate>, Map<nat, u32>) {
    match last_kept(pending, kept, pending.len()) {
        None => (kept, words),
        Some(k) => {
            let (fate, rest) = tear_drawn(pending[k as int]->Write_data.len(), granularity, words);
            (kept.update(k as int, fate), rest)
        },
    }
}

/// The fate of a file, and the words that are left.
pub open spec fn fate_drawn(file: FileView, tearing: Option<nat>, words: Map<nat, u32>) -> (
    FateView,
    Map<nat, u32>,
) {
    let (entry, rest) = entry_drawn(file, words);
    match file.volatile {
        None => (FateView { entry, ops: Seq::empty() }, rest),
        Some(v) => {
            let (kept, after) = kept_drawn(entry, rest, v.pending.len());
            match tearing {
                None => (FateView { entry, ops: kept }, after),
                Some(granularity) => {
                    let (ops, last) = tears_drawn(v.pending, kept, granularity, after);
                    (FateView { entry, ops }, last)
                },
            }
        },
    }
}

/// The fates of the first `n` files, in order, and the words that are left.
pub open spec fn fates_drawn(
    files: Seq<FileView>,
    tearing: Option<nat>,
    words: Map<nat, u32>,
    n: nat,
) -> (Seq<FateView>, Map<nat, u32>)
    decreases n,
{
    if n == 0 {
        (Seq::empty(), words)
    } else {
        let (fates, rest) = fates_drawn(files, tearing, words, (n - 1) as nat);
        let (fate, after) = fate_drawn(files[n - 1], tearing, rest);
        (fates.push(fate), after)
    }
}

/// Which of the first `n` directories stay, and the words that are left: a coin
/// decides about each that is not durable, in order.
pub open spec fn dirs_drawn(durable: Seq<bool>, words: Map<nat, u32>, n: nat) -> (
    Seq<bool>,
    Map<nat, u32>,
)
    decreases n,
{
    if n == 0 {
        (Seq::empty(), words)
    } else {
        let (stay, rest) = dirs_drawn(durable, words, (n - 1) as nat);
        if durable[n - 1] {
            (stay.push(true), rest)
        } else {
            let (kept, after) = coin(rest);
            (stay.push(kept), after)
        }
    }
}

/// How a kept write of `len` bytes fares.
fn draw_tear(len: usize, granularity: usize, rng: &mut StdRng) -> (r: OpFate)
    requires
        granularity > 0,
    ensures
        (r, crate::chance::std_words(*final(rng))) == tear_drawn(
            len as nat,
            granularity as nat,
            crate::chance::std_words(*old(rng)),
        ),
        r matches OpFate::Torn(tear) ==> tear_fits(len as nat, granularity as nat, tear),
        r != OpFate::Lost,
{
    if !chance(rng, 3, 10) {
        return OpFate::Kept;
    }
    let n: usize = count_sectors(len, granularity);
    if n == 0 {
        proof {
            lemma_no_sectors(len as int, granularity as int);
        }
        return OpFate::Torn(Tear::Prefix(0));
    }
    let prefix = chance(rng, 1, 2);
    let sector: usize = below_usize(rng, n);
    if prefix {
        OpFate::Torn(Tear::Prefix(sector))
    } else {
        OpFate::Torn(Tear::Hole(sector))
    }
}

proof fn lemma_last_kept(pending: Seq<Change>, kept: Seq<OpFate>, n: nat)
    requires
        n <= pending.len(),
    ensures
        match last_kept(pending, kept, n) {
            Some(k) => {
                &&& k < n
                &&& pending[k as int] is Write
                &&& kept[k as int] == OpFate::Kept
                &&& forall|j: int|
                    k < j < n && #[trigger] pending[j] is Write ==> kept[j] != OpFate::Kept
            },
            None => forall|j: int|
                0 <= j < n && #[trigger] pending[j] is Write ==> kept[j] != OpFate::Kept,
        },
    decreases n,
{
    if n > 0 {
        lemma_last_kept(pending, kept, (n - 1) as nat);
    }
}

/// Draw the fate of one file. Which operations are kept is drawn first, for all
/// of them; how the last kept write is torn is drawn after that.
fn draw_fate(file: &FileState, tearing: Option<usize>, rng: &mut StdRng) -> (r: Fate)
    requires
        tearing != Some(0usize),
    ensures
        can_meet(file@, granularity_of(tearing), r@),
        (r@, crate::chance::std_words(*final(rng))) == fate_drawn(
            file@,
            granularity_of(tearing),
            crate::chance::std_words(*old(rng)),
        ),
{
    let volatile = match &file.volatile {
        None => {
            let entry = if file.dirent_durable {
                chance(rng, 1, 2)
            } else {
                true
            };
            let r = Fate { entry, ops: Vec::new() };
            assert(r@ =~= (FateView { entry, ops: Seq::empty() }));
            return r;
        },
        Some(v) => v,
    };
    let entry = if file.dirent_durable {
        true
    } else {
        chance(rng, 1, 2)
    };
    let ghost words = crate::chance::std_words(*rng);
    let ghost all = changes(volatile.pending@);
    let count: usize = volatile.pending.len();
    let mut ops: Vec<OpFate> = Vec::new();
    let mut i: usize = 0;
    while i < count
        invariant
            i <= count,
            (ops@, crate::chance::std_words(*rng)) == kept_drawn(entry, words, i as nat),
            ops.len() == i,
            forall|k: int|
                0 <= k < i ==> #[trigger] ops@[k] == OpFate::Lost || ops@[k] == OpFate::Kept,
        decreases count - i,
    {
        if entry && chance(rng, 1, 2) {
            ops.push(OpFate::Kept);
        } else {
            ops.push(OpFate::Lost);
        }
        i += 1;
    }
    let granularity = match tearing {
        Some(granularity) => granularity,
        None => return Fate { entry, ops },
    };
    let ghost kept = ops@;
    let mut j: usize = count;
    while j > 0
        invariant
            j <= count == volatile.pending@.len(),
            count == all.len() == kept.len(),
            all == changes(volatile.pending@),
            ops@ == kept,
            last_kept(all, kept, count as nat) == last_kept(all, kept, j as nat),
            granularity > 0,
            tearing == Some(granularity),
            file.volatile == Some(*volatile),
            file@.volatile is Some,
            file@.volatile->0.pending == all,
            (FateView { entry, ops: kept }, crate::chance::std_words(*rng)) == fate_drawn(
                file@,
                None,
                crate::chance::std_words(*old(rng)),
            ),
            forall|k: int|
                0 <= k < kept.len() ==> #[trigger] kept[k] == OpFate::Lost || kept[k]
                    == OpFate::Kept,
        decreases j,
    {
        j -= 1;
        assert(all[j as int] == volatile.pending@[j as int]@);
        match (&volatile.pending[j], ops[j]) {
            (Pend::Write { data, .. }, OpFate::Kept) => {
                proof {
                    lemma_last_kept(all, kept, count as nat);
                }
                let fate = draw_tear(data.len(), granularity, rng);
                ops.set(j, fate);
                assert(ops@ =~= kept.update(j as int, fate));
                return Fate { entry, ops };
            },
            _ => {},
        }
    }
    Fate { entry, ops }
}

proof fn lemma_no_sectors(len: int, g: int)
    requires
        g > 0,
        len >= 0,
        (len + g - 1) / g == 0,
    ensures
        len == 0,
{
    if len > 0 {
        assert((len + g - 1) / g >= 1) by (nonlinear_arith)
            requires
                len > 0,
                g > 0,
        ;
    }
}

// ---------- the store ----------

/// An in-memory backing store that simulates crashes.
pub struct CrashableBacking {
    files: Table<FileState>,
    /// Directory path to whether its entry is durable.
    dirs: Table<bool>,
    locks: Table<bool>,
    pending_writes: usize,
    /// Simulated free space.
    free: Option<u64>,
    /// Tear granularity for random crashes (`None` = off).
    tearing: Option<usize>,
}

/// An open file of the store.
#[derive(Debug)]
pub struct CrashFile {
    pub path: String,
}

/// The entry `name` lies directly in the directory whose entries start with
/// `prefix`; the result is its own name.
pub open spec fn entry_in(name: Seq<char>, prefix: Seq<char>) -> Option<Seq<char>> {
    match crate::text::after_prefix(name, prefix) {
        Some(rest) => if rest.len() > 0 && !rest.contains('/') {
            Some(rest)
        } else {
            None
        },
        None => None,
    }
}

/// What the names of a directory's entries start with.
pub open spec fn dir_prefix(dir: Seq<char>) -> Seq<char> {
    if dir.len() == 0 {
        Seq::empty()
    } else {
        dir + "/"@
    }
}

/// The file after its directory was synced.
pub open spec fn entry_synced(file: Option<FileView>) -> Option<FileView> {
    match file {
        Some(f) => match f.volatile {
            Some(_) => Some(FileView { dirent_durable: true, ..f }),
            None => if f.durable is Some || f.dirent_durable {
                None
            } else {
                Some(f)
            },
        },
        None => None,
    }
}

/// The path of the first `n` components.
pub open spec fn path_upto(parts: Seq<Seq<char>>, n: nat) -> Seq<char>
    decreases n,
{
    if n == 0 {
        Seq::empty()
    } else {
        let before = path_upto(parts, (n - 1) as nat);
        if before.len() == 0 {
            parts[n - 1]
        } else {
            before + "/"@ + parts[n - 1]
        }
    }
}

/// `dir` is one of the directories that lead to `path`, or `path` itself.
pub open spec fn leads_to(dir: Seq<char>, path: Seq<char>) -> bool {
    let parts = crate::text::split(path, '/');
    exists|n: nat| 1 <= n <= parts.len() && dir == #[trigger] path_upto(parts, n)
}

fn prefix_text(dir: &str) -> (r: String)
    ensures
        r@ == dir_prefix(dir@),
{
    if dir.is_empty() {
        String::new()
    } else {
        join2(dir, "/")
    }
}

fn own_name<'a>(name: &'a str, prefix: &str) -> (r: Option<&'a str>)
    ensures
        r is Some <==> entry_in(name@, prefix@) is Some,
        r matches Some(rest) ==> entry_in(name@, prefix@) == Some(rest@),
{
    match strip_prefix(name, prefix) {
        Some(rest) => if !rest.is_empty() && !has_char(rest, '/') {
            Some(rest)
        } else {
            None
        },
        None => None,
    }
}

fn not_found(path: &str) -> (r: BackingError)
    ensures
        r.kind == ErrorKind::NotFound,
        r.message@ == path@,
{
    BackingError { kind: ErrorKind::NotFound, message: path.to_owned() }
}

impl CrashableBacking {
    /// The file of that name, if the store knows it.
    pub closed spec fn file(&self, name: Seq<char>) -> Option<FileView> {
        if self.files@.contains_key(name) {
            Some(self.files@[name]@)
        } else {
            None
        }
    }

    /// Whether the directory's entry is durable, if the directory exists.
    pub closed spec fn dir(&self, name: Seq<char>) -> Option<bool> {
        if self.dirs@.contains_key(name) {
            Some(self.dirs@[name])
        } else {
            None
        }
    }

    /// The volume lock of that name is taken.
    pub closed spec fn locked(&self, name: Seq<char>) -> bool {
        self.locks@.contains_key(name)
    }

    /// The number of writes acknowledged since the last crash.
    pub closed spec fn writes(&self) -> nat {
        self.pending_writes as nat
    }

    /// The simulated free space.
    pub closed spec fn free(&self) -> Option<u64> {
        self.free
    }

    /// The sector size at which kept writes may tear.
    pub closed spec fn granularity(&self) -> Option<nat> {
        granularity_of(self.tearing)
    }

    /// Every pending operation is addressable and a granularity is positive.
    pub closed spec fn wf(&self) -> bool {
        &&& self.tearing != Some(0usize)
        &&& forall|name: Seq<char>| #[trigger]
            self.files@.contains_key(name) ==> match self.files@[name]@.volatile {
                Some(v) => all_fit(v.pending),
                None => true,
            }
    }

    /// What a reader of the file sees.
    pub open spec fn data(&self, name: Seq<char>) -> Option<Seq<u8>> {
        match self.file(name) {
            Some(f) => content(f),
            None => None,
        }
    }

    /// The file exists in the volatile view.
    pub open spec fn has_file(&self, name: Seq<char>) -> bool {
        self.file(name) is Some && self.file(name)->0.volatile is Some
    }

    /// All files but `name` are the same.
    pub open spec fn other_files_kept(&self, old: &Self, name: Seq<char>) -> bool {
        forall|n: Seq<char>|
            #![trigger self.file(n)]
            #![trigger old.file(n)]
            n != name ==> self.file(n) == old.file(n)
    }

    /// All files are the same.
    pub open spec fn files_kept(&self, old: &Self) -> bool {
        forall|n: Seq<char>|
            #![trigger self.file(n)]
            #![trigger old.file(n)]
            self.file(n) == old.file(n)
    }

    /// All locks are the same.
    pub open spec fn locks_kept(&self, old: &Self) -> bool {
        forall|n: Seq<char>|
            #![trigger self.locked(n)]
            #![trigger old.locked(n)]
            self.locked(n) == old.locked(n)
    }

    /// All directories are the same.
    pub open spec fn dirs_kept(&self, old: &Self) -> bool {
        forall|n: Seq<char>|
            #![trigger self.dir(n)]
            #![trigger old.dir(n)]
            self.dir(n) == old.dir(n)
    }

    /// Locks, free space, write count and granularity are the same.
    pub open spec fn rest_kept(&self, old: &Self) -> bool {
        &&& self.free() == old.free()
        &&& self.granularity() == old.granularity()
        &&& self.writes() == old.writes()
        &&& self.locks_kept(old)
    }

    pub fn new() -> (r: Self)
        ensures
            r.wf(),
            r.granularity() is None,
            r.free() is None,
            r.writes() == 0,
            forall|n: Seq<char>| #[trigger] r.file(n) is None,
            forall|n: Seq<char>| #[trigger] r.dir(n) is None,
            forall|n: Seq<char>| !#[trigger] r.locked(n),
            r.file_names().len() == 0,
            r.dir_names().len() == 0,
    {
        CrashableBacking {
            files: Table::new(),
            dirs: Table::new(),
            locks: Table::new(),
            pending_writes: 0,
            free: None,
            tearing: None,
        }
    }

    /// Enable random torn writes at `granularity` bytes.
    pub fn with_tearing(self, granularity: usize) -> (r: Self)
        requires
            granularity > 0,
            self.wf(),
        ensures
            r.wf(),
            r.granularity() == Some(granularity as nat),
            r.free() == self.free(),
            r.writes() == self.writes(),
            r.files_kept(&self),
            r.dirs_kept(&self),
            r.locks_kept(&self),
    {
        let mut r = self;
        r.tearing = Some(granularity);
        r
    }

    /// Simulate the free space that the backing filesystem reports (`None` =
    /// unknown, the default).
    pub fn set_free_bytes(&mut self, free: Option<u64>)
        ensures
            final(self).free() == free,
            final(self).granularity() == old(self).granularity(),
            final(self).writes() == old(self).writes(),
            final(self).wf() == old(self).wf(),
            final(self).files_kept(old(self)),
            final(self).dirs_kept(old(self)),
            final(self).locks_kept(old(self)),
    {
        self.free = free;
    }

    pub fn free_bytes(&self) -> (r: Option<u64>)
        ensures
            r == self.free(),
    {
        self.free
    }

    pub fn pending_write_count(&self) -> (r: usize)
        ensures
            r == self.writes(),
    {
        self.pending_writes
    }

    /// Take the volume lock of that name.
    pub fn try_lock(&mut self, path: &str) -> (r: Result<(), BackingError>)
        ensures
            r is Ok <==> !old(self).locked(path@),
            r matches Err(e) ==> e.kind == ErrorKind::WouldBlock && e.message@
                == "VOLUME_ALREADY_ATTACHED"@,
            forall|n: Seq<char>| #[trigger]
                final(self).locked(n) == (n == path@ || old(self).locked(n)),
            final(self).files_kept(old(self)),
            final(self).dirs_kept(old(self)),
            final(self).wf() == old(self).wf(),
            final(self).free() == old(self).free(),
            final(self).granularity() == old(self).granularity(),
            final(self).writes() == old(self).writes(),
    {
        if self.locks.contains_key(path) {
            return Err(
                BackingError {
                    kind: ErrorKind::WouldBlock,
                    message: "VOLUME_ALREADY_ATTACHED".to_owned(),
                },
            );
        }
        self.locks.insert(path, true);
        Ok(())
    }

    /// Give the volume lock of that name back.
    pub fn unlock(&mut self, path: &str)
        ensures
            forall|n: Seq<char>| #[trigger]
                final(self).locked(n) == (n != path@ && old(self).locked(n)),
            final(self).files_kept(old(self)),
            final(self).dirs_kept(old(self)),
            final(self).wf() == old(self).wf(),
            final(self).free() == old(self).free(),
            final(self).granularity() == old(self).granularity(),
            final(self).writes() == old(self).writes(),
    {
        self.locks.remove(path);
    }

    /// Open a file, or create it: a fresh file starts empty and its directory
    /// entry is volatile.
    pub fn open(&mut self, path: &str, create: bool, fault: Option<BackingError>) -> (r: Result<
        CrashFile,
        BackingError,
    >)
        requires
            old(self).wf(),
        ensures
            final(self).wf(),
            match r {
                Ok(file) => {
                    &&& fault is None
                    &&& old(self).has_file(path@) || create
                    &&& file.path@ == path@
                    &&& old(self).has_file(path@) ==> final(self).file(path@) == old(self).file(
                        path@,
                    )
                    &&& !old(self).has_file(path@) ==> final(self).file(path@) == Some(
                        FileView {
                            durable: match old(self).file(path@) {
                                Some(f) => f.durable,
                                None => None,
                            },
                            dirent_durable: false,
                            volatile: Some(
                                VolatileView { base_durable: false, pending: Seq::empty() },
                            ),
                        },
                    )
                },
                Err(e) => {
                    &&& match fault {
                        Some(injected) => e == injected,
                        None => !old(self).has_file(path@) && !create && e.kind
                            == ErrorKind::NotFound && e.message@ == path@,
                    }
                    &&& final(self).file(path@) == old(self).file(path@)
                },
            },
            final(self).other_files_kept(old(self), path@),
            final(self).dirs_kept(old(self)),
            final(self).rest_kept(old(self)),
    {
        match fault {
            Some(e) => return Err(e),
            None => {},
        }
        let (there, durable) = match self.files.get(path) {
            Some(f) => (f.volatile.is_some(), copy_durable(&f.durable)),
            None => (false, None),
        };
        if !there {
            if !create {
                return Err(not_found(path));
            }
            let fresh = FileState {
                durable,
                dirent_durable: false,
                volatile: Some(Volatile { base_durable: false, pending: Vec::new() }),
            };
            assert(changes(fresh.volatile->0.pending@) =~= Seq::<Change>::empty());
            self.files.insert(path, fresh);
        }
        Ok(CrashFile { path: path.to_owned() })
    }

    /// Whether a file or a directory of that name exists.
    pub fn exists_path(&self, path: &str) -> (r: bool)
        ensures
            r == (self.has_file(path@) || self.dir(path@) is Some),
    {
        let file = match self.files.get(path) {
            Some(f) => f.volatile.is_some(),
            None => false,
        };
        file || self.dirs.contains_key(path)
    }

    /// The complaint about an operation on a file that is not there.
    pub open spec fn missing(&self, path: Seq<char>) -> Option<Seq<char>> {
        match self.file(path) {
            None => Some(path),
            Some(f) => if f.volatile is None {
                Some(path + " (removed)"@)
            } else {
                None
            },
        }
    }

    fn present(&self, file: &CrashFile) -> (r: Result<&FileState, BackingError>)
        ensures
            match r {
                Ok(f) => {
                    &&& self.missing(file.path@) is None
                    &&& self.file(file.path@) == Some(f@)
                    &&& self.files@.contains_key(file.path@)
                    &&& self.files@[file.path@] == *f
                    &&& f.volatile is Some
                },
                Err(e) => e.kind == ErrorKind::NotFound && self.missing(file.path@) == Some(
                    e.message@,
                ),
            },
    {
        match self.files.get(file.path.as_str()) {
            Some(f) => {
                if f.volatile.is_none() {
                    return Err(
                        BackingError {
                            kind: ErrorKind::NotFound,
                            message: join2(file.path.as_str(), " (removed)"),
                        },
                    );
                }
                Ok(f)
            },
            None => Err(not_found(file.path.as_str())),
        }
    }

    /// Read `len` bytes at `offset`.
    pub fn read_at(&self, file: &CrashFile, offset: u64, len: usize) -> (r: Result<
        Vec<u8>,
        BackingError,
    >)
        requires
            self.wf(),
            offset + len <= usize::MAX,
        ensures
            match r {
                Ok(bytes) => {
                    &&& self.data(file.path@) is Some
                    &&& offset + len <= self.data(file.path@)->0.len()
                    &&& bytes@ == self.data(file.path@)->0.subrange(
                        offset as int,
                        offset + len,
                    )
                },
                Err(e) => match self.missing(file.path@) {
                    Some(message) => e.kind == ErrorKind::NotFound && e.message@ == message,
                    None => {
                        &&& offset + len > self.data(file.path@)->0.len()
                        &&& e.kind == ErrorKind::UnexpectedEof
                        &&& e.message@ == "read "@ + crate::text::decimal(offset as nat) + ".."@
                            + crate::text::decimal((offset + len) as nat) + " past EOF "@
                            + crate::text::decimal(self.data(file.path@)->0.len())
                    },
                },
            },
    {
        let f = match self.present(file) {
            Ok(f) => f,
            Err(e) => return Err(e),
        };
        let data = match compose(f) {
            Some(data) => data,
            None => Vec::new(),
        };
        let start: usize = offset as usize;
        let end: usize = start + len;
        if end > data.len() {
            let mut message = join5(
                "read ",
                show(offset).as_str(),
                "..",
                show(end as u64).as_str(),
                " past EOF ",
            );
            message.append(show(data.len() as u64).as_str());
            return Err(BackingError { kind: ErrorKind::UnexpectedEof, message });
        }
        let mut out: Vec<u8> = Vec::new();
        let mut i: usize = start;
        while i < end
            invariant
                start <= i <= end <= data@.len(),
                out@ == data@.subrange(start as int, i as int),
            decreases end - i,
        {
            out.push(data[i]);
            assert(out@ =~= data@.subrange(start as int, i + 1));
            i += 1;
        }
        Ok(out)
    }

    /// The length of the file.
    pub fn len(&self, file: &CrashFile) -> (r: Result<u64, BackingError>)
        requires
            self.wf(),
        ensures
            match r {
                Ok(n) => self.missing(file.path@) is None && n == self.data(file.path@)->0.len(),
                Err(e) => e.kind == ErrorKind::NotFound && self.missing(file.path@) == Some(
                    e.message@,
                ),
            },
    {
        let f = match self.present(file) {
            Ok(f) => f,
            Err(e) => return Err(e),
        };
        let data = match compose(f) {
            Some(data) => data,
            None => Vec::new(),
        };
        Ok(data.len() as u64)
    }

    /// The file with one more pending operation.
    pub open spec fn with_pending(file: FileView, change: Change) -> FileView {
        FileView {
            volatile: match file.volatile {
                Some(v) => Some(
                    VolatileView { base_durable: v.base_durable, pending: v.pending.push(change) },
                ),
                None => None,
            },
            ..file
        }
    }

    fn add_pending(&mut self, path: &str, p: Pend)
        requires
            old(self).wf(),
            old(self).has_file(path@),
            fits(p@),
        ensures
            final(self).wf(),
            final(self).file(path@) == Some(Self::with_pending(old(self).file(path@)->0, p@)),
            final(self).other_files_kept(old(self), path@),
            final(self).dirs_kept(old(self)),
            final(self).rest_kept(old(self)),
    {
        let next = match self.files.get(path) {
            Some(f) => match &f.volatile {
                Some(v) => {
                    let mut pending = copy_pending(&v.pending);
                    let ghost held = pending@;
                    pending.push(p);
                    proof {
                        assert(changes(pending@) =~= changes(held).push(p@));
                        assert(all_fit(changes(pending@))) by {
                            assert forall|i: int| 0 <= i < changes(pending@).len() implies fits(
                                #[trigger] changes(pending@)[i],
                            ) by {
                                if i < changes(v.pending@).len() {
                                    assert(changes(pending@)[i] == changes(v.pending@)[i]);
                                }
                            }
                        }
                    }
                    FileState {
                        durable: copy_durable(&f.durable),
                        dirent_durable: f.dirent_durable,
                        volatile: Some(Volatile { base_durable: v.base_durable, pending }),
                    }
                },
                None => return ,
            },
            None => return ,
        };
        self.files.insert(path, next);
    }

    /// Write at an offset; volatile until the data is synced.
    pub fn write_at(
        &mut self,
        file: &CrashFile,
        offset: u64,
        data: &[u8],
        fault: Option<BackingError>,
    ) -> (r: Result<(), BackingError>)
        requires
            old(self).wf(),
            offset + data@.len() <= usize::MAX,
            old(self).writes() < usize::MAX,
        ensures
            final(self).wf(),
            match r {
                Ok(()) => {
                    &&& old(self).missing(file.path@) is None
                    &&& fault is None
                    &&& final(self).file(file.path@) == Some(
                        Self::with_pending(
                            old(self).file(file.path@)->0,
                            Change::Write { offset: offset as nat, data: data@ },
                        ),
                    )
                    &&& final(self).writes() == old(self).writes() + 1
                },
                Err(e) => {
                    &&& match old(self).missing(file.path@) {
                        Some(message) => e.kind == ErrorKind::NotFound && e.message@ == message,
                        None => fault == Some(e),
                    }
                    &&& final(self).file(file.path@) == old(self).file(file.path@)
                    &&& final(self).writes() == old(self).writes()
                },
            },
            final(self).other_files_kept(old(self), file.path@),
            final(self).dirs_kept(old(self)),
            final(self).free() == old(self).free(),
            final(self).granularity() == old(self).granularity(),
            final(self).locks_kept(old(self)),
    {
        match self.present(file) {
            Ok(_) => {},
            Err(e) => return Err(e),
        }
        match fault {
            Some(e) => return Err(e),
            None => {},
        }
        self.add_pending(
            file.path.as_str(),
            Pend::Write { offset, data: copy_bytes(data) },
        );
        self.pending_writes = self.pending_writes + 1;
        Ok(())
    }

    /// Change the length; volatile until the data is synced.
    pub fn set_len(&mut self, file: &CrashFile, len: u64, fault: Option<BackingError>) -> (r:
        Result<(), BackingError>)
        requires
            old(self).wf(),
            len <= usize::MAX,
        ensures
            final(self).wf(),
            match r {
                Ok(()) => {
                    &&& old(self).missing(file.path@) is None
                    &&& fault is None
                    &&& final(self).file(file.path@) == Some(
                        Self::with_pending(
                            old(self).file(file.path@)->0,
                            Change::SetLen(len as nat),
                        ),
                    )
                },
                Err(e) => {
                    &&& match old(self).missing(file.path@) {
                        Some(message) => e.kind == ErrorKind::NotFound && e.message@ == message,
                        None => fault == Some(e),
                    }
                    &&& final(self).file(file.path@) == old(self).file(file.path@)
                },
            },
            final(self).other_files_kept(old(self), file.path@),
            final(self).dirs_kept(old(self)),
            final(self).rest_kept(old(self)),
    {
        match self.present(file) {
            Ok(_) => {},
            Err(e) => return Err(e),
        }
        match fault {
            Some(e) => return Err(e),
            None => {},
        }
        self.add_pending(file.path.as_str(), Pend::SetLen(len));
        Ok(())
    }

    /// Make the content of the file durable.
    pub fn sync_data(&mut self, file: &CrashFile, fault: Option<BackingError>) -> (r: Result<
        (),
        BackingError,
    >)
        requires
            old(self).wf(),
        ensures
            final(self).wf(),
            match r {
                Ok(()) => {
                    &&& old(self).missing(file.path@) is None
                    &&& fault is None
                    &&& final(self).file(file.path@) == Some(
                        FileView {
                            dirent_durable: old(self).file(file.path@)->0.dirent_durable,
                            ..settled(old(self).data(file.path@)->0)
                        },
                    )
                },
                Err(e) => {
                    &&& match old(self).missing(file.path@) {
                        Some(message) => e.kind == ErrorKind::NotFound && e.message@ == message,
                        None => fault == Some(e),
                    }
                    &&& final(self).file(file.path@) == old(self).file(file.path@)
                },
            },
            final(self).other_files_kept(old(self), file.path@),
            final(self).dirs_kept(old(self)),
            final(self).rest_kept(old(self)),
    {
        let next = match self.present(file) {
            Ok(f) => {
                let data = match compose(f) {
                    Some(data) => data,
                    None => Vec::new(),
                };
                FileState {
                    durable: Some(data),
                    dirent_durable: f.dirent_durable,
                    volatile: Some(Volatile { base_durable: true, pending: Vec::new() }),
                }
            },
            Err(e) => return Err(e),
        };
        match fault {
            Some(e) => return Err(e),
            None => {},
        }
        assert(changes(next.volatile->0.pending@) =~= Seq::<Change>::empty());
        self.files.insert(file.path.as_str(), next);
        Ok(())
    }

    /// The file after its removal from the volatile view.
    pub open spec fn removed(file: FileView) -> FileView {
        FileView { volatile: None, ..file }
    }

    fn drop_volatile(&mut self, path: &str)
        requires
            old(self).wf(),
            old(self).file(path@) is Some,
        ensures
            final(self).wf(),
            final(self).file(path@) == Some(Self::removed(old(self).file(path@)->0)),
            final(self).other_files_kept(old(self), path@),
            final(self).dirs_kept(old(self)),
            final(self).rest_kept(old(self)),
    {
        let next = match self.files.get(path) {
            Some(f) => FileState {
                durable: copy_durable(&f.durable),
                dirent_durable: f.dirent_durable,
                volatile: None,
            },
            None => return ,
        };
        self.files.insert(path, next);
    }

    /// Remove a file; volatile until its directory is synced.
    pub fn remove(&mut self, path: &str, fault: Option<BackingError>) -> (r: Result<
        (),
        BackingError,
    >)
        requires
            old(self).wf(),
        ensures
            final(self).wf(),
            match r {
                Ok(()) => {
                    &&& fault is None
                    &&& old(self).has_file(path@)
                    &&& final(self).file(path@) == Some(Self::removed(old(self).file(path@)->0))
                },
                Err(e) => {
                    &&& match fault {
                        Some(injected) => e == injected,
                        None => !old(self).has_file(path@) && e.kind == ErrorKind::NotFound
                            && e.message@ == path@,
                    }
                    &&& final(self).file(path@) == old(self).file(path@)
                },
            },
            final(self).other_files_kept(old(self), path@),
            final(self).dirs_kept(old(self)),
            final(self).rest_kept(old(self)),
    {
        match fault {
            Some(e) => return Err(e),
            None => {},
        }
        let there = match self.files.get(path) {
            Some(f) => f.volatile.is_some(),
            None => false,
        };
        if !there {
            return Err(not_found(path));
        }
        self.drop_volatile(path);
        Ok(())
    }

    /// The file that a rename creates.
    pub open spec fn renamed(target: Option<FileView>, data: Seq<u8>) -> FileView {
        FileView {
            durable: match target {
                Some(f) => f.durable,
                None => None,
            },
            dirent_durable: false,
            volatile: Some(
                VolatileView {
                    base_durable: false,
                    pending: seq![Change::Write { offset: 0, data }],
                },
            ),
        }
    }

    /// Move a file: a fresh volatile file with the moved content appears at
    /// `to`, and `from` is removed from the volatile view.
    pub fn rename(&mut self, from: &str, to: &str, fault: Option<BackingError>) -> (r: Result<
        (),
        BackingError,
    >)
        requires
            old(self).wf(),
        ensures
            final(self).wf(),
            match r {
                Ok(()) => {
                    &&& fault is None
                    &&& old(self).has_file(from@)
                    &&& from@ != to@ ==> final(self).file(to@) == Some(
                        Self::renamed(old(self).file(to@), old(self).data(from@)->0),
                    )
                    &&& from@ != to@ ==> final(self).file(from@) == Some(
                        Self::removed(old(self).file(from@)->0),
                    )
                    &&& from@ == to@ ==> final(self).file(from@) == Some(
                        Self::removed(
                            Self::renamed(old(self).file(to@), old(self).data(from@)->0),
                        ),
                    )
                    &&& forall|n: Seq<char>|
                        n != from@ && n != to@ ==> #[trigger] final(self).file(n) == old(self).file(
                            n,
                        )
                },
                Err(e) => {
                    &&& match fault {
                        Some(injected) => e == injected,
                        None => !old(self).has_file(from@) && e.kind == ErrorKind::NotFound
                            && e.message@ == from@,
                    }
                    &&& final(self).files_kept(old(self))
                },
            },
            final(self).dirs_kept(old(self)),
            final(self).rest_kept(old(self)),
    {
        match fault {
            Some(e) => return Err(e),
            None => {},
        }
        let found = match self.files.get(from) {
            Some(f) => compose(f),
            None => None,
        };
        let data = match found {
            Some(data) => data,
            None => return Err(not_found(from)),
        };
        let durable = match self.files.get(to) {
            Some(f) => copy_durable(&f.durable),
            None => None,
        };
        let size: usize = data.len();
        let mut pending: Vec<Pend> = Vec::new();
        pending.push(Pend::Write { offset: 0, data });
        assert(size == data@.len());
        let moved = FileState {
            durable,
            dirent_durable: false,
            volatile: Some(Volatile { base_durable: false, pending }),
        };
        assert(changes(moved.volatile->0.pending@) =~= seq![
            Change::Write { offset: 0, data: data@ },
        ]);
        self.files.insert(to, moved);
        self.drop_volatile(from);
        Ok(())
    }

    /// Create a directory and those that lead to it; volatile until synced.
    pub fn create_dir_all(&mut self, path: &str)
        requires
            old(self).wf(),
        ensures
            final(self).wf(),
            forall|n: Seq<char>| #[trigger]
                final(self).dir(n) == if old(self).dir(n) is None && leads_to(n, path@) {
                    Some(false)
                } else {
                    old(self).dir(n)
                },
            final(self).files_kept(old(self)),
            final(self).rest_kept(old(self)),
    {
        let parts = split_text(path, '/');
        let ghost all = crate::text::split(path@, '/');
        assert(all.len() == parts@.len());
        let mut cur = String::new();
        let mut i: usize = 0;
        while i < parts.len()
            invariant
                i <= parts.len(),
                crate::text::texts(parts@) == all,
                self.wf(),
                cur@ == path_upto(all, i as nat),
                forall|n: Seq<char>| #[trigger]
                    self.dir(n) == if old(self).dir(n) is None && (exists|k: nat|
                        1 <= k <= i && n == #[trigger] path_upto(all, k)) {
                        Some(false)
                    } else {
                        old(self).dir(n)
                    },
                self.files_kept(old(self)),
                self.rest_kept(old(self)),
            decreases parts.len() - i,
        {
            assert(all[i as int] == parts@[i as int]@);
            if !cur.as_str().is_empty() {
                cur.append("/");
            }
            cur.append(parts[i]);
            proof {
                let before = path_upto(all, i as nat);
                if before.len() == 0 {
                    assert(cur@ =~= all[i as int]);
                }
                assert(cur@ == path_upto(all, (i + 1) as nat));
            }
            let ghost held = *self;
            if !self.dirs.contains_key(cur.as_str()) {
                self.dirs.insert(cur.as_str(), false);
            }
            proof {
                assert forall|n: Seq<char>| #[trigger]
                    self.dir(n) == if old(self).dir(n) is None && (exists|k: nat|
                        1 <= k <= i + 1 && n == #[trigger] path_upto(all, k)) {
                        Some(false)
                    } else {
                        old(self).dir(n)
                    } by {
                    let _ = held.dir(n);
                    if n == cur@ {
                        assert(n == path_upto(all, (i + 1) as nat));
                        assert(1 <= i + 1 && n == path_upto(all, (i + 1) as nat));
                    } else if exists|k: nat| 1 <= k <= i + 1 && n == #[trigger] path_upto(all, k) {
                        let k = choose|k: nat|
                            1 <= k <= i + 1 && n == #[trigger] path_upto(all, k);
                        assert(1 <= k <= i && n == path_upto(all, k));
                    } else if exists|k: nat| 1 <= k <= i && n == #[trigger] path_upto(all, k) {
                        let k = choose|k: nat| 1 <= k <= i && n == #[trigger] path_upto(all, k);
                        assert(1 <= k <= i + 1 && n == path_upto(all, k));
                    }
                }
            }
            i += 1;
        }
    }

    /// Some file or directory of the volatile view is the entry `own` of the
    /// directory.
    pub open spec fn lists(&self, dir: Seq<char>, own: Seq<char>) -> bool {
        exists|n: Seq<char>| #[trigger]
            entry_in(n, dir_prefix(dir)) == Some(own) && (self.has_file(n) || self.dir(n) is Some)
    }

    /// The names directly inside a directory, in order and each once.
    pub fn list(&self, dir: &str) -> (r: Vec<String>)
        ensures
            crate::text::ascending(crate::text::strings(r@)),
            crate::text::strings(r@).no_duplicates(),
            forall|own: Seq<char>| #[trigger]
                crate::text::strings(r@).contains(own) <==> self.lists(dir@, own),
    {
        let prefix = prefix_text(dir);
        let mut out: Vec<String> = Vec::new();
        let files = self.files.key_list();
        let dirs = self.dirs.key_list();
        let ghost fk = crate::text::strings(files@);
        let ghost dk = crate::text::strings(dirs@);
        let mut i: usize = 0;
        while i < files.len()
            invariant
                i <= files.len(),
                prefix@ == dir_prefix(dir@),
                fk == crate::text::strings(files@),
                crate::text::ascending(crate::text::strings(out@)),
                crate::text::strings(out@).no_duplicates(),
                forall|own: Seq<char>| #[trigger]
                    crate::text::strings(out@).contains(own) <==> exists|k: int|
                        0 <= k < i && entry_in(#[trigger] fk[k], prefix@) == Some(own)
                            && self.has_file(fk[k]),
            decreases files.len() - i,
        {
            assert(fk[i as int] == files@[i as int]@);
            let live = match self.files.get(files[i].as_str()) {
                Some(f) => f.volatile.is_some(),
                None => false,
            };
            let ghost before = crate::text::strings(out@);
            if live {
                match own_name(files[i].as_str(), prefix.as_str()) {
                    Some(rest) => add_name(&mut out, rest),
                    None => {},
                }
            }
            proof {
                assert(live == self.has_file(fk[i as int]));
                let added = if live {
                    entry_in(fk[i as int], prefix@)
                } else {
                    None
                };
                assert forall|own: Seq<char>| #[trigger]
                    crate::text::strings(out@).contains(own) <==> exists|k: int|
                        0 <= k < i + 1 && entry_in(#[trigger] fk[k], prefix@) == Some(own)
                            && self.has_file(fk[k]) by {
                    assert(crate::text::strings(out@).contains(own) <==> before.contains(own)
                        || added == Some(own));
                    if added == Some(own) {
                        assert(entry_in(fk[i as int], prefix@) == Some(own));
                    }
                    if before.contains(own) {
                        let k = choose|k: int|
                            0 <= k < i && entry_in(#[trigger] fk[k], prefix@) == Some(own)
                                && self.has_file(fk[k]);
                        assert(0 <= k < i + 1 && entry_in(fk[k], prefix@) == Some(own));
                    }
                    if exists|k: int|
                        0 <= k < i + 1 && entry_in(#[trigger] fk[k], prefix@) == Some(own)
                            && self.has_file(fk[k]) {
                        let k = choose|k: int|
                            0 <= k < i + 1 && entry_in(#[trigger] fk[k], prefix@) == Some(own)
                                && self.has_file(fk[k]);
                        if k < i {
                            assert(0 <= k < i && entry_in(fk[k], prefix@) == Some(own));
                        }
                    }
                }
            }
            i += 1;
        }
        let ghost from_files = crate::text::strings(out@);
        let mut j: usize = 0;
        while j < dirs.len()
            invariant
                j <= dirs.len(),
                prefix@ == dir_prefix(dir@),
                dk == crate::text::strings(dirs@),
                crate::text::ascending(crate::text::strings(out@)),
                crate::text::strings(out@).no_duplicates(),
                forall|own: Seq<char>| #[trigger]
                    crate::text::strings(out@).contains(own) <==> from_files.contains(own)
                        || exists|k: int|
                        0 <= k < j && entry_in(#[trigger] dk[k], prefix@) == Some(own),
            decreases dirs.len() - j,
        {
            assert(dk[j as int] == dirs@[j as int]@);
            let ghost before = crate::text::strings(out@);
            match own_name(dirs[j].as_str(), prefix.as_str()) {
                Some(rest) => add_name(&mut out, rest),
                None => {},
            }
            proof {
                let added = entry_in(dk[j as int], prefix@);
                assert forall|own: Seq<char>| #[trigger]
                    crate::text::strings(out@).contains(own) <==> from_files.contains(own)
                        || exists|k: int|
                        0 <= k < j + 1 && entry_in(#[trigger] dk[k], prefix@) == Some(own) by {
                    assert(crate::text::strings(out@).contains(own) <==> before.contains(own)
                        || added == Some(own));
                    if added == Some(own) {
                        assert(entry_in(dk[j as int], prefix@) == Some(own));
                    }
                    if exists|k: int| 0 <= k < j && entry_in(#[trigger] dk[k], prefix@) == Some(own) {
                        let k = choose|k: int|
                            0 <= k < j && entry_in(#[trigger] dk[k], prefix@) == Some(own);
                        assert(0 <= k < j + 1 && entry_in(dk[k], prefix@) == Some(own));
                    }
                    if exists|k: int|
                        0 <= k < j + 1 && entry_in(#[trigger] dk[k], prefix@) == Some(own) {
                        let k = choose|k: int|
                            0 <= k < j + 1 && entry_in(#[trigger] dk[k], prefix@) == Some(own);
                        if k < j {
                            assert(0 <= k < j && entry_in(dk[k], prefix@) == Some(own));
                        }
                    }
                }
            }
            j += 1;
        }
        proof {
            assert forall|own: Seq<char>| #[trigger]
                crate::text::strings(out@).contains(own) <==> self.lists(dir@, own) by {
                if self.lists(dir@, own) {
                    let n = choose|n: Seq<char>| #[trigger]
                        entry_in(n, dir_prefix(dir@)) == Some(own) && (self.has_file(n)
                            || self.dir(n) is Some);
                    if self.has_file(n) {
                        assert(self.files@.contains_key(n));
                        let k = fk.index_of(n);
                        assert(entry_in(fk[k], prefix@) == Some(own));
                    } else {
                        assert(self.dirs@.contains_key(n));
                        let k = dk.index_of(n);
                        assert(entry_in(dk[k], prefix@) == Some(own));
                    }
                }
                if crate::text::strings(out@).contains(own) {
                    if from_files.contains(own) {
                        let k = choose|k: int|
                            0 <= k < i && entry_in(#[trigger] fk[k], prefix@) == Some(own)
                                && self.has_file(fk[k]);
                        assert(entry_in(fk[k], dir_prefix(dir@)) == Some(own));
                    } else {
                        let k = choose|k: int|
                            0 <= k < j && entry_in(#[trigger] dk[k], prefix@) == Some(own);
                        assert(dk.contains(dk[k]));
                        assert(self.dirs@.contains_key(dk[k]));
                        assert(entry_in(dk[k], dir_prefix(dir@)) == Some(own));
                    }
                }
            }
        }
        out
    }

    /// Commit the directory entries directly inside `dir`.
    pub fn sync_dir(&mut self, dir: &str, fault: Option<BackingError>) -> (r: Result<
        (),
        BackingError,
    >)
        requires
            old(self).wf(),
        ensures
            final(self).wf(),
            match r {
                Ok(()) => {
                    &&& fault is None
                    &&& forall|n: Seq<char>| #[trigger]
                        final(self).file(n) == if entry_in(n, dir_prefix(dir@)) is Some {
                            entry_synced(old(self).file(n))
                        } else {
                            old(self).file(n)
                        }
                    &&& forall|n: Seq<char>| #[trigger]
                        final(self).dir(n) == if n == dir@ && dir@.len() > 0 {
                            Some(true)
                        } else if old(self).dir(n) is Some && entry_in(n, dir_prefix(dir@)) is Some {
                            Some(true)
                        } else {
                            old(self).dir(n)
                        }
                },
                Err(e) => {
                    &&& fault == Some(e)
                    &&& final(self).files_kept(old(self))
                    &&& final(self).dirs_kept(old(self))
                },
            },
            final(self).rest_kept(old(self)),
    {
        match fault {
            Some(e) => return Err(e),
            None => {},
        }
        let prefix = prefix_text(dir);
        let names = self.files.key_list();
        let ghost keys = crate::text::strings(names@);
        let ghost start = *self;
        let mut i: usize = 0;
        while i < names.len()
            invariant
                i <= names.len(),
                keys == crate::text::strings(names@),
                keys.no_duplicates(),
                prefix@ == dir_prefix(dir@),
                self.wf(),
                self.dirs_kept(&start),
                self.rest_kept(&start),
                forall|k: int|
                    0 <= k < i ==> self.file(#[trigger] keys[k]) == if entry_in(
                        keys[k],
                        prefix@,
                    ) is Some {
                        entry_synced(start.file(keys[k]))
                    } else {
                        start.file(keys[k])
                    },
                forall|k: int| i <= k < keys.len() ==> self.file(#[trigger] keys[k]) == start.file(keys[k]),
                forall|n: Seq<char>|
                    !keys.contains(n) ==> #[trigger] self.file(n) == start.file(n),
            decreases names.len() - i,
        {
            assert(keys[i as int] == names@[i as int]@);
            assert(self.file(keys[i as int]) == start.file(keys[i as int]));
            let name = names[i].as_str();
            let ghost held = *self;
            if own_name(name, prefix.as_str()).is_some() {
                let (drop, next) = match self.files.get(name) {
                    Some(f) => match &f.volatile {
                        Some(v) => {
                            let pending = copy_pending(&v.pending);
                            (
                                false,
                                Some(
                                    FileState {
                                        durable: copy_durable(&f.durable),
                                        dirent_durable: true,
                                        volatile: Some(
                                            Volatile { base_durable: v.base_durable, pending },
                                        ),
                                    },
                                ),
                            )
                        },
                        None => (f.durable.is_some() || f.dirent_durable, None),
                    },
                    None => (false, None),
                };
                match next {
                    Some(f) => {
                        self.files.insert(name, f);
                    },
                    None => {
                        if drop {
                            self.files.remove(name);
                        }
                    },
                }
            }
            proof {
                assert forall|k: int| 0 <= k < keys.len() && k != i implies self.file(
                    #[trigger] keys[k],
                ) == held.file(keys[k]) by {
                    assert(keys[k] != keys[i as int]);
                }
                assert forall|n: Seq<char>| !keys.contains(n) implies #[trigger] self.file(n)
                    == start.file(n) by {
                    assert(keys.contains(keys[i as int]));
                    assert(held.file(n) == start.file(n));
                }
            }
            i += 1;
        }
        proof {
            assert forall|n: Seq<char>| #[trigger]
                self.file(n) == if entry_in(n, dir_prefix(dir@)) is Some {
                    entry_synced(start.file(n))
                } else {
                    start.file(n)
                } by {
                if keys.contains(n) {
                    let k = keys.index_of(n);
                    assert(self.file(keys[k]) == if entry_in(keys[k], prefix@) is Some {
                        entry_synced(start.file(keys[k]))
                    } else {
                        start.file(keys[k])
                    });
                } else {
                    assert(!start.files@.contains_key(n));
                }
            }
        }
        let ghost committed = *self;
        if !dir.is_empty() {
            self.dirs.insert(dir, true);
        }
        let ghost marked = *self;
        let dir_names = self.dirs.key_list();
        let ghost dkeys = crate::text::strings(dir_names@);
        let mut j: usize = 0;
        while j < dir_names.len()
            invariant
                j <= dir_names.len(),
                dkeys == crate::text::strings(dir_names@),
                dkeys.no_duplicates(),
                prefix@ == dir_prefix(dir@),
                self.wf(),
                self.files == marked.files,
                self.rest_kept(&marked),
                forall|k: int|
                    0 <= k < j ==> self.dir(#[trigger] dkeys[k]) == if entry_in(
                        dkeys[k],
                        prefix@,
                    ) is Some {
                        Some(true)
                    } else {
                        marked.dir(dkeys[k])
                    },
                forall|k: int|
                    j <= k < dkeys.len() ==> self.dir(#[trigger] dkeys[k]) == marked.dir(dkeys[k]),
                forall|n: Seq<char>|
                    !dkeys.contains(n) ==> #[trigger] self.dir(n) == marked.dir(n),
            decreases dir_names.len() - j,
        {
            assert(dkeys[j as int] == dir_names@[j as int]@);
            let name = dir_names[j].as_str();
            let ghost held = *self;
            if own_name(name, prefix.as_str()).is_some() {
                self.dirs.insert(name, true);
            }
            proof {
                assert forall|k: int| 0 <= k < dkeys.len() && k != j implies self.dir(
                    #[trigger] dkeys[k],
                ) == held.dir(dkeys[k]) by {
                    assert(dkeys[k] != dkeys[j as int]);
                }
                assert forall|n: Seq<char>| !dkeys.contains(n) implies #[trigger] self.dir(n)
                    == marked.dir(n) by {
                    assert(dkeys.contains(dkeys[j as int]));
                    assert(held.dir(n) == marked.dir(n));
                }
            }
            j += 1;
        }
        proof {
            assert(self.files_kept(&marked));
            assert(marked.files_kept(&committed));
            assert forall|n: Seq<char>| #[trigger]
                self.dir(n) == if n == dir@ && dir@.len() > 0 {
                    Some(true)
                } else if old(self).dir(n) is Some && entry_in(n, dir_prefix(dir@)) is Some {
                    Some(true)
                } else {
                    old(self).dir(n)
                } by {
                assert(committed.dir(n) == start.dir(n));
                assert(marked.dir(n) == if n == dir@ && dir@.len() > 0 {
                    Some(true)
                } else {
                    committed.dir(n)
                });
                if dkeys.contains(n) {
                    let k = dkeys.index_of(n);
                    assert(self.dir(dkeys[k]) == if entry_in(dkeys[k], prefix@) is Some {
                        Some(true)
                    } else {
                        marked.dir(dkeys[k])
                    });
                } else {
                    assert(!marked.dirs@.contains_key(n));
                }
            }
        }
        Ok(())
    }
}

/// A directory after a crash: durable ones stay, others stay or vanish.
pub open spec fn dir_may_become(before: Option<bool>, after: Option<bool>) -> bool {
    match before {
        None => after is None,
        Some(true) => after == Some(true),
        Some(false) => after is None || after == Some(true),
    }
}

impl CrashableBacking {
    /// Replace one file, or drop it.
    fn put(&mut self, name: &str, next: Option<FileState>)
        requires
            old(self).wf(),
            next matches Some(f) ==> match f@.volatile {
                Some(v) => all_fit(v.pending),
                None => true,
            },
        ensures
            final(self).wf(),
            final(self).file(name@) == match next {
                Some(f) => Some(f@),
                None => None,
            },
            final(self).other_files_kept(old(self), name@),
            final(self).dirs_kept(old(self)),
            final(self).rest_kept(old(self)),
    {
        match next {
            Some(f) => {
                self.files.insert(name, f);
            },
            None => {
                self.files.remove(name);
            },
        }
    }

    /// The names of the directories, in order.
    pub closed spec fn dir_names(&self) -> Seq<Seq<char>> {
        self.dirs.keys()
    }

    /// The names of the files that the store knows, in order. A file that was
    /// removed is known until its directory is synced.
    pub closed spec fn file_names(&self) -> Seq<Seq<char>> {
        self.files.keys()
    }

    /// Of each directory, in order, whether its entry is durable.
    pub open spec fn durable_dirs(&self) -> Seq<bool> {
        Seq::new(
            self.dir_names().len(),
            |i: int| self.dir(self.dir_names()[i]) == Some(true),
        )
    }

    /// The files that the store knows, in order.
    pub open spec fn known_files(&self) -> Seq<FileView> {
        Seq::new(self.file_names().len(), |i: int| self.file(self.file_names()[i])->Some_0)
    }

    /// The names are those of the files and directories, each once and in
    /// ascending order.
    pub open spec fn named(&self) -> bool {
        &&& crate::table::strictly_ascending(self.dir_names())
        &&& crate::table::strictly_ascending(self.file_names())
        &&& self.dir_names().no_duplicates()
        &&& self.file_names().no_duplicates()
        &&& forall|n: Seq<char>| #[trigger]
            self.dir_names().contains(n) <==> self.dir(n) is Some
        &&& forall|n: Seq<char>| #[trigger]
            self.file_names().contains(n) <==> self.file(n) is Some
    }

    /// What a crash leaves of `old`, in which the directories and files meet the
    /// given fates, one after the other.
    pub open spec fn crashed(&self, old: &Self, stay: Seq<bool>, fates: Seq<FateView>) -> bool {
        &&& self.writes() == 0
        &&& self.free() == old.free()
        &&& self.granularity() == old.granularity()
        &&& self.locks_kept(old)
        &&& forall|i: int|
            0 <= i < old.dir_names().len() ==> self.dir(#[trigger] old.dir_names()[i])
                == if old.durable_dirs()[i] || stay[i] {
                Some(true)
            } else {
                None
            }
        &&& forall|n: Seq<char>| !old.dir_names().contains(n) ==> #[trigger] self.dir(n) is None
        &&& forall|i: int|
            0 <= i < old.file_names().len() ==> self.file(#[trigger] old.file_names()[i])
                == after_crash(old.known_files()[i], old.granularity(), fates[i])
        &&& forall|n: Seq<char>| !old.file_names().contains(n) ==> #[trigger] self.file(n) is None
    }

    /// Draw which directories stay.
    fn draw_dirs(&self, rng: &mut StdRng) -> (r: Vec<bool>)
        ensures
            r@.len() == self.dir_names().len(),
            (r@, crate::chance::std_words(*final(rng))) == dirs_drawn(
                self.durable_dirs(),
                crate::chance::std_words(*old(rng)),
                self.dir_names().len(),
            ),
    {
        let mut stay: Vec<bool> = Vec::new();
        let mut i: usize = 0;
        while i < self.dirs.len()
            invariant
                i <= self.dirs.keys().len(),
                stay@.len() == i,
                (stay@, crate::chance::std_words(*rng)) == dirs_drawn(
                    self.durable_dirs(),
                    crate::chance::std_words(*old(rng)),
                    i as nat,
                ),
            decreases self.dirs.keys().len() - i,
        {
            let (name, durable) = self.dirs.at(i);
            assert(self.durable_dirs()[i as int] == *durable);
            if *durable {
                stay.push(true);
            } else {
                stay.push(chance(rng, 1, 2));
            }
            i += 1;
        }
        stay
    }

    /// Draw the fates of the files.
    fn draw_fates(&self, rng: &mut StdRng) -> (r: Vec<Fate>)
        requires
            self.wf(),
        ensures
            r@.len() == self.file_names().len(),
            (fate_views(r@), crate::chance::std_words(*final(rng))) == fates_drawn(
                self.known_files(),
                self.granularity(),
                crate::chance::std_words(*old(rng)),
                self.file_names().len(),
            ),
            forall|i: int|
                0 <= i < r@.len() ==> can_meet(
                    #[trigger] self.known_files()[i],
                    self.granularity(),
                    r@[i]@,
                ),
    {
        let mut fates: Vec<Fate> = Vec::new();
        let mut i: usize = 0;
        assert(fate_views(fates@) =~= Seq::<FateView>::empty());
        while i < self.files.len()
            invariant
                i <= self.files.keys().len(),
                self.wf(),
                fates@.len() == i,
                (fate_views(fates@), crate::chance::std_words(*rng)) == fates_drawn(
                    self.known_files(),
                    self.granularity(),
                    crate::chance::std_words(*old(rng)),
                    i as nat,
                ),
                forall|k: int|
                    0 <= k < i ==> can_meet(
                        #[trigger] self.known_files()[k],
                        self.granularity(),
                        fates@[k]@,
                    ),
            decreases self.files.keys().len() - i,
        {
            let (name, file) = self.files.at(i);
            assert(self.known_files()[i as int] == file@);
            let ghost before = fates@;
            let fate = draw_fate(file, self.tearing, rng);
            fates.push(fate);
            assert(fate_views(fates@) =~= fate_views(before).push(fate@));
            i += 1;
        }
        fates
    }

    /// The directories meet their fates.
    fn settle_dirs(&mut self, stay: &Vec<bool>)
        requires
            old(self).wf(),
            stay@.len() == old(self).dir_names().len(),
        ensures
            final(self).wf(),
            final(self).files == old(self).files,
            final(self).rest_kept(old(self)),
            forall|i: int|
                0 <= i < old(self).dir_names().len() ==> final(self).dir(
                    #[trigger] old(self).dir_names()[i],
                ) == if old(self).durable_dirs()[i] || stay@[i] {
                    Some(true)
                } else {
                    None
                },
            forall|n: Seq<char>|
                !old(self).dir_names().contains(n) ==> #[trigger] final(self).dir(n) is None,
            old(self).dir_names().no_duplicates(),
            crate::table::strictly_ascending(old(self).dir_names()),
            forall|n: Seq<char>| #[trigger]
                old(self).dir_names().contains(n) <==> old(self).dir(n) is Some,
    {
        let names = self.dirs.key_list();
        let ghost keys = crate::text::strings(names@);
        let ghost start = *self;
        let mut i: usize = 0;
        while i < names.len()
            invariant
                i <= names.len() == keys.len() == stay@.len(),
                keys == crate::text::strings(names@),
                keys == start.dir_names(),
                keys.no_duplicates(),
                forall|n: Seq<char>| #[trigger] start.dirs@.contains_key(n) <==> keys.contains(n),
                self.wf(),
                self.files == start.files,
                self.rest_kept(&start),
                forall|k: int|
                    0 <= k < i ==> self.dir(#[trigger] keys[k]) == if start.durable_dirs()[k]
                        || stay@[k] {
                        Some(true)
                    } else {
                        None
                    },
                forall|k: int|
                    i <= k < keys.len() ==> self.dir(#[trigger] keys[k]) == start.dir(keys[k]),
                forall|n: Seq<char>| !keys.contains(n) ==> #[trigger] self.dir(n) is None,
            decreases names.len() - i,
        {
            assert(keys[i as int] == names@[i as int]@);
            let name = names[i].as_str();
            let ghost held = *self;
            let durable = match self.dirs.get(name) {
                Some(d) => *d,
                None => true,
            };
            proof {
                assert(keys.contains(keys[i as int]));
                assert(start.dirs@.contains_key(keys[i as int]));
                assert(held.dir(keys[i as int]) == start.dir(keys[i as int]));
                assert(start.durable_dirs()[i as int] == durable);
            }
            if !durable {
                if stay[i] {
                    self.dirs.insert(name, true);
                } else {
                    self.dirs.remove(name);
                }
            }
            proof {
                assert forall|k: int| 0 <= k < keys.len() && k != i implies self.dir(
                    #[trigger] keys[k],
                ) == held.dir(keys[k]) by {
                    assert(keys[k] != keys[i as int]);
                }
                assert forall|n: Seq<char>| !keys.contains(n) implies #[trigger] self.dir(
                    n,
                ) is None by {
                    assert(held.dir(n) is None);
                }
            }
            i += 1;
        }
    }

    /// The files meet their fates.
    fn settle_files(&mut self, fates: &Vec<Fate>)
        requires
            old(self).wf(),
            fates@.len() == old(self).file_names().len(),
            forall|i: int|
                0 <= i < fates@.len() ==> can_meet(
                    #[trigger] old(self).known_files()[i],
                    old(self).granularity(),
                    fates@[i]@,
                ),
        ensures
            final(self).wf(),
            final(self).dirs_kept(old(self)),
            final(self).rest_kept(old(self)),
            forall|i: int|
                0 <= i < old(self).file_names().len() ==> final(self).file(
                    #[trigger] old(self).file_names()[i],
                ) == after_crash(old(self).known_files()[i], old(self).granularity(), fates@[i]@),
            forall|n: Seq<char>|
                !old(self).file_names().contains(n) ==> #[trigger] final(self).file(n) is None,
            old(self).file_names().no_duplicates(),
            crate::table::strictly_ascending(old(self).file_names()),
            forall|n: Seq<char>| #[trigger]
                old(self).file_names().contains(n) <==> old(self).file(n) is Some,
    {
        let tearing = self.tearing;
        let names = self.files.key_list();
        let ghost keys = crate::text::strings(names@);
        let ghost start = *self;
        let mut i: usize = 0;
        while i < names.len()
            invariant
                i <= names.len() == keys.len() == fates@.len(),
                keys == crate::text::strings(names@),
                keys == start.file_names(),
                keys.no_duplicates(),
                forall|n: Seq<char>| #[trigger] start.files@.contains_key(n) <==> keys.contains(n),
                tearing != Some(0usize),
                start.granularity() == granularity_of(tearing),
                self.wf(),
                start.wf(),
                self.dirs_kept(&start),
                self.rest_kept(&start),
                forall|k: int|
                    0 <= k < fates@.len() ==> can_meet(
                        #[trigger] start.known_files()[k],
                        start.granularity(),
                        fates@[k]@,
                    ),
                forall|k: int|
                    0 <= k < i ==> self.file(#[trigger] keys[k]) == after_crash(
                        start.known_files()[k],
                        start.granularity(),
                        fates@[k]@,
                    ),
                forall|k: int|
                    i <= k < keys.len() ==> self.file(#[trigger] keys[k]) == start.file(keys[k]),
                forall|n: Seq<char>| !keys.contains(n) ==> #[trigger] self.file(n) is None,
            decreases names.len() - i,
        {
            assert(keys[i as int] == names@[i as int]@);
            let name = names[i].as_str();
            let ghost held = *self;
            proof {
                assert(keys.contains(keys[i as int]));
                assert(start.files@.contains_key(keys[i as int]));
                assert(held.file(keys[i as int]) == start.file(keys[i as int]));
                assert(Some(start.known_files()[i as int]) == start.file(keys[i as int]));
            }
            match self.files.get(name) {
                Some(f) => {
                    assert(held.file(name@) == Some(f@));
                    let next = settle_file(f, tearing, &fates[i]);
                    self.put(name, next);
                },
                None => {},
            }
            proof {
                assert forall|k: int| 0 <= k < keys.len() && k != i implies self.file(
                    #[trigger] keys[k],
                ) == held.file(keys[k]) by {
                    assert(keys[k] != keys[i as int]);
                }
                assert forall|n: Seq<char>| !keys.contains(n) implies #[trigger] self.file(
                    n,
                ) is None by {
                    assert(held.file(n) is None);
                }
            }
            i += 1;
        }
    }

    /// Simulate a crash in which the directories and files meet the given fates,
    /// one for each in the order of their names: a directory that is not durable
    /// stays or vanishes, and of a file each volatile operation is kept or lost,
    /// but for the last surviving write, which may be torn. Afterwards,
    /// everything that survived is durable.
    pub fn crash_with(&mut self, stay: &Vec<bool>, fates: &Vec<Fate>)
        requires
            old(self).wf(),
            stay@.len() == old(self).dir_names().len(),
            fates@.len() == old(self).file_names().len(),
            forall|i: int|
                0 <= i < fates@.len() ==> can_meet(
                    #[trigger] old(self).known_files()[i],
                    old(self).granularity(),
                    fates@[i]@,
                ),
        ensures
            final(self).wf(),
            final(self).crashed(old(self), stay@, fate_views(fates@)),
            old(self).named(),
    {
        let ghost before = *self;
        self.pending_writes = 0;
        let ghost counted = *self;
        assert(counted.known_files() =~= before.known_files()) by {
            assert(counted.files_kept(&before));
        }
        assert(counted.durable_dirs() =~= before.durable_dirs()) by {
            assert(counted.dirs_kept(&before));
        }
        self.settle_dirs(stay);
        let ghost start = *self;
        assert(start.known_files() =~= before.known_files()) by {
            assert(start.files_kept(&before));
        }
        assert forall|i: int| 0 <= i < fates@.len() implies can_meet(
            #[trigger] start.known_files()[i],
            start.granularity(),
            fates@[i]@,
        ) by {
            assert(before.known_files()[i] == start.known_files()[i]);
        }
        self.settle_files(fates);
        proof {
            assert(counted.dirs_kept(&before));
            assert(start.files_kept(&before));
            assert forall|i: int| 0 <= i < before.file_names().len() implies self.file(
                #[trigger] before.file_names()[i],
            ) == after_crash(
                before.known_files()[i],
                before.granularity(),
                fate_views(fates@)[i],
            ) by {
                assert(start.file_names()[i] == before.file_names()[i]);
            }
            assert forall|i: int| 0 <= i < before.dir_names().len() implies self.dir(
                #[trigger] before.dir_names()[i],
            ) == if before.durable_dirs()[i] || stay@[i] {
                Some(true)
            } else {
                None
            } by {
                assert(counted.dir_names()[i] == before.dir_names()[i]);
                assert(self.dir(before.dir_names()[i]) == start.dir(before.dir_names()[i]));
            }
            assert forall|n: Seq<char>| !before.dir_names().contains(n) implies #[trigger] self.dir(
                n,
            ) is None by {
                assert(start.dir(n) is None);
            }
            assert forall|n: Seq<char>| #[trigger]
                before.dir_names().contains(n) <==> before.dir(n) is Some by {
                assert(counted.dir_names().contains(n) <==> counted.dir(n) is Some);
            }
            assert forall|n: Seq<char>| #[trigger]
                before.file_names().contains(n) <==> before.file(n) is Some by {
                assert(start.file_names().contains(n) <==> start.file(n) is Some);
            }
        }
    }

    /// Simulate a crash: every volatile operation is independently kept or
    /// lost, and the last surviving write of each file may be torn if tearing is
    /// enabled. Afterwards,
    /// everything that survived is durable. What is drawn follows from the words
    /// of the generator; whatever it is, each file and directory becomes
    /// something that a crash may leave of it.
    pub fn crash(&mut self, rng: &mut StdRng)
        requires
            old(self).wf(),
        ensures
            final(self).wf(),
            old(self).named(),
            ({
                let words = crate::chance::std_words(*old(rng));
                let (stay, rest) = dirs_drawn(
                    old(self).durable_dirs(),
                    words,
                    old(self).dir_names().len(),
                );
                let (fates, left) = fates_drawn(
                    old(self).known_files(),
                    old(self).granularity(),
                    rest,
                    old(self).file_names().len(),
                );
                final(self).crashed(old(self), stay, fates) && crate::chance::std_words(*final(rng))
                    == left
            }),
            forall|n: Seq<char>|
                #![trigger final(self).dir(n)]
                dir_may_become(old(self).dir(n), final(self).dir(n)),
            forall|n: Seq<char>|
                #![trigger final(self).file(n)]
                may_become(old(self).file(n), final(self).file(n), old(self).granularity()),
    {
        let stay = self.draw_dirs(rng);
        let fates = self.draw_fates(rng);
        let ghost before = *self;
        self.crash_with(&stay, &fates);
        proof {
            assert forall|n: Seq<char>| #![trigger self.file(n)]
                may_become(before.file(n), self.file(n), before.granularity()) by {
                if before.file_names().contains(n) {
                    let k = before.file_names().index_of(n);
                    assert(before.file_names()[k] == n);
                    assert(can_meet(before.known_files()[k], before.granularity(), fates@[k]@));
                    assert(fate_views(fates@)[k] == fates@[k]@);
                    assert(before.file(n) is Some);
                } else {
                    assert(before.file(n) is None);
                }
            }
            assert forall|n: Seq<char>| #![trigger self.dir(n)]
                dir_may_become(before.dir(n), self.dir(n)) by {
                if before.dir_names().contains(n) {
                    let k = before.dir_names().index_of(n);
                    assert(before.dir_names()[k] == n);
                    assert(before.dir(n) is Some);
                } else {
                    assert(before.dir(n) is None);
                }
            }
        }
    }

    /// Every file but `spared` loses all that is volatile.
    fn lose_files(&mut self, spared: Option<&str>)
        requires
            old(self).wf(),
        ensures
            final(self).wf(),
            final(self).dirs_kept(old(self)),
            final(self).rest_kept(old(self)),
            forall|n: Seq<char>|
                #![trigger final(self).file(n)]
                final(self).file(n) == match old(self).file(n) {
                    Some(f) => if spared is Some && spared->0@ == n {
                        Some(f)
                    } else {
                        all_lost(f)
                    },
                    None => None,
                },
    {
        let names = self.files.key_list();
        let ghost keys = crate::text::strings(names@);
        let ghost start = *self;
        let mut i: usize = 0;
        while i < names.len()
            invariant
                i <= names.len(),
                keys == crate::text::strings(names@),
                keys.no_duplicates(),
                self.wf(),
                self.dirs_kept(&start),
                self.rest_kept(&start),
                forall|k: int|
                    0 <= k < i ==> self.file(#[trigger] keys[k]) == match start.file(keys[k]) {
                        Some(f) => if spared is Some && spared->0@ == keys[k] {
                            Some(f)
                        } else {
                            all_lost(f)
                        },
                        None => None,
                    },
                forall|k: int|
                    i <= k < keys.len() ==> self.file(#[trigger] keys[k]) == start.file(keys[k]),
                forall|n: Seq<char>|
                    !keys.contains(n) ==> #[trigger] self.file(n) == start.file(n),
            decreases names.len() - i,
        {
            assert(keys[i as int] == names@[i as int]@);
            let name = names[i].as_str();
            let ghost held = *self;
            let skip = match spared {
                Some(path) => same(path, name),
                None => false,
            };
            if !skip {
                let next = match self.files.get(name) {
                    Some(f) => match (&f.durable, f.dirent_durable) {
                        (Some(data), true) => Some(settle(copy_bytes(data.as_slice()))),
                        _ => None,
                    },
                    None => None,
                };
                self.put(name, next);
            }
            proof {
                assert(held.file(keys[i as int]) == start.file(keys[i as int]));
                assert forall|k: int| 0 <= k < keys.len() && k != i implies self.file(
                    #[trigger] keys[k],
                ) == held.file(keys[k]) by {
                    assert(keys[k] != keys[i as int]);
                }
                assert forall|n: Seq<char>| !keys.contains(n) implies #[trigger] self.file(n)
                    == start.file(n) by {
                    assert(keys.contains(keys[i as int]));
                    assert(held.file(n) == start.file(n));
                }
            }
            i += 1;
        }
        proof {
            assert forall|n: Seq<char>|
                #![trigger self.file(n)]
                self.file(n) == match start.file(n) {
                    Some(f) => if spared is Some && spared->0@ == n {
                        Some(f)
                    } else {
                        all_lost(f)
                    },
                    None => None,
                } by {
                if keys.contains(n) {
                    let k = keys.index_of(n);
                    assert(self.file(keys[k]) == self.file(n));
                } else {
                    assert(!start.files@.contains_key(n));
                }
            }
        }
    }

    /// Crash losing every volatile operation: unsynced writes are dropped,
    /// unsynced creations vanish, unsynced removals are undone.
    pub fn crash_all_lost(&mut self)
        requires
            old(self).wf(),
        ensures
            final(self).wf(),
            final(self).writes() == 0,
            final(self).free() == old(self).free(),
            final(self).granularity() == old(self).granularity(),
            final(self).locks_kept(old(self)),
            forall|n: Seq<char>|
                #![trigger final(self).dir(n)]
                final(self).dir(n) == if old(self).dir(n) == Some(true) {
                    Some(true)
                } else {
                    None
                },
            forall|n: Seq<char>|
                #![trigger final(self).file(n)]
                final(self).file(n) == match old(self).file(n) {
                    Some(f) => all_lost(f),
                    None => None,
                },
    {
        self.pending_writes = 0;
        let ghost counted = *self;
        assert(counted.files_kept(old(self)));
        assert(counted.dirs_kept(old(self)));
        self.lose_files(None);
        let names = self.dirs.key_list();
        let ghost keys = crate::text::strings(names@);
        let ghost start = *self;
        let mut i: usize = 0;
        while i < names.len()
            invariant
                i <= names.len(),
                keys == crate::text::strings(names@),
                keys.no_duplicates(),
                self.wf(),
                self.files == start.files,
                self.rest_kept(&start),
                forall|k: int|
                    0 <= k < i ==> self.dir(#[trigger] keys[k]) == if start.dir(keys[k]) == Some(
                        true,
                    ) {
                        Some(true)
                    } else {
                        None
                    },
                forall|k: int|
                    i <= k < keys.len() ==> self.dir(#[trigger] keys[k]) == start.dir(keys[k]),
                forall|n: Seq<char>|
                    !keys.contains(n) ==> #[trigger] self.dir(n) == start.dir(n),
            decreases names.len() - i,
        {
            assert(keys[i as int] == names@[i as int]@);
            let name = names[i].as_str();
            let ghost held = *self;
            let durable = match self.dirs.get(name) {
                Some(d) => *d,
                None => false,
            };
            if !durable {
                self.dirs.remove(name);
            }
            proof {
                assert(held.dir(keys[i as int]) == start.dir(keys[i as int]));
                assert forall|k: int| 0 <= k < keys.len() && k != i implies self.dir(
                    #[trigger] keys[k],
                ) == held.dir(keys[k]) by {
                    assert(keys[k] != keys[i as int]);
                }
                assert forall|n: Seq<char>| !keys.contains(n) implies #[trigger] self.dir(n)
                    == start.dir(n) by {
                    assert(keys.contains(keys[i as int]));
                    assert(held.dir(n) == start.dir(n));
                }
            }
            i += 1;
        }
        proof {
            assert forall|n: Seq<char>|
                #![trigger self.dir(n)]
                self.dir(n) == if old(self).dir(n) == Some(true) {
                    Some(true)
                } else {
                    None
                } by {
                assert(counted.dir(n) == old(self).dir(n));
                assert(start.dir(n) == counted.dir(n));
                if keys.contains(n) {
                    let k = keys.index_of(n);
                    assert(self.dir(keys[k]) == self.dir(n));
                } else {
                    assert(!start.dirs@.contains_key(n));
                }
            }
            assert forall|n: Seq<char>|
                #![trigger self.file(n)]
                self.file(n) == match old(self).file(n) {
                    Some(f) => all_lost(f),
                    None => None,
                } by {
                assert(counted.file(n) == old(self).file(n));
                assert(start.file(n) == self.file(n));
            }
        }
    }

    /// Crash that tears one file deterministically: all pending operations of
    /// `path` persist except that its last write keeps only its first
    /// `keep_bytes` bytes. Other files lose all that is volatile.
    pub fn crash_keep_torn_prefix(&mut self, path: &str, keep_bytes: usize)
        requires
            old(self).wf(),
            old(self).has_file(path@),
        ensures
            final(self).wf(),
            final(self).dirs_kept(old(self)),
            final(self).rest_kept(old(self)),
            forall|n: Seq<char>|
                #![trigger final(self).file(n)]
                final(self).file(n) == match old(self).file(n) {
                    Some(f) => if n == path@ {
                        Some(torn_file(f, keep_bytes as nat))
                    } else {
                        all_lost(f)
                    },
                    None => None,
                },
    {
        let next = match self.files.get(path) {
            Some(f) => match &f.volatile {
                Some(v) => Some(settle(tear_tail(f, v, keep_bytes))),
                None => None,
            },
            None => None,
        };
        let ghost first = *self;
        self.put(path, next);
        let ghost torn_one = *self;
        self.lose_files(Some(path));
        proof {
            assert forall|n: Seq<char>|
                #![trigger self.file(n)]
                self.file(n) == match first.file(n) {
                    Some(f) => if n == path@ {
                        Some(torn_file(f, keep_bytes as nat))
                    } else {
                        all_lost(f)
                    },
                    None => None,
                } by {
                if n != path@ {
                    assert(torn_one.file(n) == first.file(n));
                }
            }
        }
    }
}

/// The content that `crash_keep_torn_prefix` leaves.
fn tear_tail(file: &FileState, v: &Volatile, keep: usize) -> (r: Vec<u8>)
    requires
        file.volatile == Some(*v),
        all_fit(changes(v.pending@)),
    ensures
        settled(r@) == torn_file(file@, keep as nat),
{
    let ghost all = changes(v.pending@);
    let ghost count = all.len();
    let mut last: Option<usize> = None;
    let mut j: usize = 0;
    while j < v.pending.len()
        invariant
            j <= v.pending.len(),
            all == changes(v.pending@),
            match last {
                Some(k) => last_write(all, j as nat) == Some(k as nat),
                None => last_write(all, j as nat) is None,
            },
        decreases v.pending.len() - j,
    {
        assert(all[j as int] == v.pending@[j as int]@);
        match &v.pending[j] {
            Pend::Write { .. } => {
                last = Some(j);
            },
            Pend::SetLen(_) => {},
        }
        j += 1;
    }
    let ghost tail = last_write(all, count);
    let mut data = base(file, v.base_durable);
    let ghost start = data@;
    let mut i: usize = 0;
    while i < v.pending.len()
        invariant
            i <= v.pending.len(),
            all == changes(v.pending@),
            all_fit(all),
            match last {
                Some(k) => tail == Some(k as nat),
                None => tail is None,
            },
            data@ == torn_tail(start, all, i as nat, tail, keep as nat),
        decreases v.pending.len() - i,
    {
        proof {
            assert(all[i as int] == v.pending@[i as int]@);
            assert(fits(all[i as int]));
        }
        let here = match last {
            Some(k) => k == i,
            None => false,
        };
        match &v.pending[i] {
            Pend::Write { offset, data: src } => {
                if here {
                    let kept: usize = if keep < src.len() {
                        keep
                    } else {
                        src.len()
                    };
                    overwrite(&mut data, *offset as usize, src.as_slice(), 0, kept);
                    assert(src@.subrange(0, kept as int) =~= src@.take(kept as int));
                } else {
                    apply(&mut data, &v.pending[i]);
                }
            },
            Pend::SetLen(_) => apply(&mut data, &v.pending[i]),
        }
        i += 1;
    }
    data
}

/// Put a name into an ordered list unless it is there.
fn add_name(out: &mut Vec<String>, name: &str)
    requires
        crate::text::ascending(crate::text::strings(old(out)@)),
        crate::text::strings(old(out)@).no_duplicates(),
    ensures
        crate::text::ascending(crate::text::strings(final(out)@)),
        crate::text::strings(final(out)@).no_duplicates(),
        forall|x: Seq<char>| #[trigger]
            crate::text::strings(final(out)@).contains(x) <==> crate::text::strings(
                old(out)@,
            ).contains(x) || x == name@,
{
    if crate::text::list_holds(out, name) {
        return ;
    }
    let ghost before = crate::text::strings(out@);
    insert_ordered(out, name.to_owned());
    proof {
        let after = crate::text::strings(out@);
        let k = choose|k: int|
            0 <= k <= before.len() && after == #[trigger] before.insert(k, name@);
        assert forall|x: Seq<char>| #[trigger]
            after.contains(x) <==> before.contains(x) || x == name@ by {
            if after.contains(x) {
                let i = after.index_of(x);
                if i < k {
                    assert(before[i] == x);
                } else if i > k {
                    assert(before[i - 1] == x);
                }
            }
            if before.contains(x) {
                let i = before.index_of(x);
                if i < k {
                    assert(after[i] == x);
                } else {
                    assert(after[i + 1] == x);
                }
            }
            assert(after[k] == name@);
        }
        assert forall|i: int, j: int|
            0 <= i < after.len() && 0 <= j < after.len() && i != j implies after[i]
            != after[j] by {
            let p = if i < k {
                i
            } else {
                i - 1
            };
            let q = if j < k {
                j
            } else {
                j - 1
            };
            if i != k && j != k {
                assert(before[p] == after[i]);
                assert(before[q] == after[j]);
            } else if i == k {
                assert(before[q] == after[j]);
            } else {
                assert(before[p] == after[i]);
            }
        }
    }
}

// ---------- laws ----------

/// The file's data and directory entry were synced and nothing happened since.
pub open spec fn fully_synced(file: FileView) -> bool {
    &&& file.dirent_durable
    &&& file.durable is Some
    &&& file.volatile matches Some(v) && v.base_durable && v.pending.len() == 0
}

/// A file that was synced together with its directory entry survives every
/// crash with the content that a reader saw.
pub proof fn synced_files_survive(file: FileView, tearing: Option<nat>, fate: FateView)
    requires
        fully_synced(file),
        can_meet(file, tearing, fate),
    ensures
        content(file) == file.durable,
        after_crash(file, tearing, fate) == Some(settled(file.durable->0)),
        all_lost(file) == Some(settled(file.durable->0)),
        content(settled(file.durable->0)) == file.durable,
{
}

/// Syncing the data of a file whose entry is durable makes it fully synced, and
/// so does syncing its directory once the data is durable.
pub proof fn syncing_settles(file: FileView)
    requires
        file.volatile is Some,
    ensures
        file.dirent_durable ==> fully_synced(
            (FileView { dirent_durable: file.dirent_durable, ..settled(content(file)->0) }),
        ),
        file.durable is Some && file.volatile->0.base_durable && file.volatile->0.pending.len() == 0
            ==> fully_synced(entry_synced(Some(file))->0),
{
}

/// A creation whose directory was never synced is lost when all that is
/// volatile is lost, even if the data was synced, and some crash loses it.
pub proof fn unsynced_creation_can_vanish(file: FileView, tearing: Option<nat>, fate: FateView)
    requires
        !file.dirent_durable,
        !fate.entry,
        file.volatile is Some,
    ensures
        all_lost(file) is None,
        after_crash(file, tearing, fate) is None,
{
}

/// A removal that was never synced can be undone by a crash; once its
/// directory was synced the file is gone for good.
pub proof fn unsynced_removal_can_be_undone(
    file: FileView,
    data: Seq<u8>,
    tearing: Option<nat>,
    fate: FateView,
)
    requires
        file.dirent_durable,
        file.durable == Some(data),
        file.volatile is None,
        !fate.entry,
    ensures
        after_crash(file, tearing, fate) == Some(settled(data)),
        entry_synced(Some(file)) is None,
{
}

/// What a crash leaves is durable: a second crash changes nothing.
pub proof fn survivors_are_durable(
    file: FileView,
    tearing: Option<nat>,
    fate: FateView,
    again: FateView,
)
    requires
        can_meet(file, tearing, fate),
        after_crash(file, tearing, fate) is Some,
    ensures
        after_crash(after_crash(file, tearing, fate)->0, tearing, again) == after_crash(
            file,
            tearing,
            fate,
        ),
{
}

/// Without tearing, an unsynced write surfaces after a crash as a whole or not
/// at all.
pub proof fn an_unsynced_write_is_kept_whole_or_lost(data: Seq<u8>, change: Change, fate: OpFate)
    requires
        op_can_meet(change, None, fate),
    ensures
        struck(data, change, None, fate) == data || struck(data, change, None, fate) == applied(
            data,
            change,
        ),
{
}

/// Only the last surviving write of a file is torn: where a later write
/// survives, even in part, an earlier operation was kept whole or lost.
pub proof fn only_the_last_surviving_write_is_torn(
    file: FileView,
    tearing: Option<nat>,
    fate: FateView,
    i: int,
    j: int,
    data: Seq<u8>,
)
    requires
        can_meet(file, tearing, fate),
        file.volatile is Some,
        0 <= i < j < file.volatile->0.pending.len(),
        file.volatile->0.pending[j] is Write,
        !(fate.ops[j] is Lost),
    ensures
        !(fate.ops[i] is Torn),
        struck(data, file.volatile->0.pending[i], tearing, fate.ops[i]) == data || struck(
            data,
            file.volatile->0.pending[i],
            tearing,
            fate.ops[i],
        ) == applied(data, file.volatile->0.pending[i]),
{
}

/// What comes before a surviving write is what a crash without tearing leaves.
pub proof fn nothing_is_torn_before_a_surviving_write(
    data: Seq<u8>,
    pending: Seq<Change>,
    tearing: Option<nat>,
    fates: Seq<OpFate>,
    j: int,
    n: nat,
)
    requires
        ops_can_meet(pending, tearing, fates),
        0 <= j < pending.len(),
        n <= j,
        pending[j] is Write,
        !(fates[j] is Lost),
    ensures
        survivors(data, pending.take(n as int), tearing, fates) == survivors(
            data,
            pending.take(n as int),
            None,
            fates,
        ),
    decreases n,
{
    if n > 0 {
        nothing_is_torn_before_a_surviving_write(data, pending, tearing, fates, j, (n - 1) as nat);
        assert(pending.take(n as int).drop_last() =~= pending.take(n - 1));
        assert(!(fates[n - 1] is Torn));
    }
}

/// The byte that stands at a position of a content, or would if it were longer.
pub open spec fn byte_at(data: Seq<u8>, k: int) -> u8 {
    if 0 <= k < data.len() {
        data[k]
    } else {
        0
    }
}

proof fn lemma_struck_elsewhere(
    data: Seq<u8>,
    offset: nat,
    src: Seq<u8>,
    tearing: Option<nat>,
    fate: OpFate,
    k: int,
)
    requires
        op_can_meet(Change::Write { offset, data: src }, tearing, fate),
        0 <= k,
        k < offset || offset + src.len() <= k,
    ensures
        data.len() <= struck(data, Change::Write { offset, data: src }, tearing, fate).len(),
        byte_at(struck(data, Change::Write { offset, data: src }, tearing, fate), k) == byte_at(
            data,
            k,
        ),
{
    if src.len() > 0 {
        match (fate, tearing) {
            (OpFate::Torn(Tear::Prefix(m)), Some(granularity)) => {
                assert(m * granularity >= 0) by (nonlinear_arith);
            },
            (OpFate::Torn(Tear::Hole(h)), Some(granularity)) => {
                lemma_sectors(src.len(), granularity, h as int);
            },
            _ => {},
        }
    }
}

/// Of two pending writes to different places, the first is whole or gone once
/// any of the second survives.
pub proof fn an_earlier_write_elsewhere_is_whole_or_gone(
    file: FileView,
    tearing: Option<nat>,
    fate: FateView,
    first: nat,
    earlier: Seq<u8>,
    second: nat,
    later: Seq<u8>,
)
    requires
        file.dirent_durable,
        file.volatile is Some,
        file.volatile->0.pending == seq![
            Change::Write { offset: first, data: earlier },
            Change::Write { offset: second, data: later },
        ],
        first + earlier.len() <= second || second + later.len() <= first,
        can_meet(file, tearing, fate),
        !(fate.ops[1] is Lost),
    ensures
        ({
            let base = base_of(file, file.volatile->0.base_durable);
            let left = content(after_crash(file, tearing, fate)->0)->0;
            ||| forall|k: int|
                first <= k < first + earlier.len() ==> #[trigger] byte_at(left, k) == earlier[k
                    - first]
            ||| forall|k: int|
                first <= k < first + earlier.len() ==> #[trigger] byte_at(left, k) == byte_at(
                    base,
                    k,
                )
        }),
{
    let base = base_of(file, file.volatile->0.base_durable);
    let pending = file.volatile->0.pending;
    let w1 = Change::Write { offset: first, data: earlier };
    let w2 = Change::Write { offset: second, data: later };
    assert(pending[0] == w1 && pending[1] == w2);
    assert(pending[1] is Write);
    assert(!(fate.ops[0] is Torn));
    assert(pending.drop_last() =~= seq![w1]);
    assert(seq![w1].drop_last() =~= Seq::<Change>::empty());
    assert(survivors(base, Seq::<Change>::empty(), tearing, fate.ops) == base);
    let middle = struck(base, w1, tearing, fate.ops[0]);
    assert(survivors(base, seq![w1], tearing, fate.ops) == middle);
    let left = struck(middle, w2, tearing, fate.ops[1]);
    assert(survivors(base, pending, tearing, fate.ops) == left);
    assert(content(after_crash(file, tearing, fate)->0)->0 =~= left);
    assert forall|k: int| first <= k < first + earlier.len() implies #[trigger] byte_at(left, k)
        == byte_at(middle, k) by {
        lemma_struck_elsewhere(middle, second, later, tearing, fate.ops[1], k);
    }
}

// ---------- what the coins decide ----------

/// The words that are left of a stream after `n` coins.
pub open spec fn after_coins(words: Map<nat, u32>, n: nat) -> Map<nat, u32>
    decreases n,
{
    if n == 0 {
        words
    } else {
        crate::chance::ratio_drawn(after_coins(words, (n - 1) as nat), 1, 2).1
    }
}

/// What the coin shows that is tossed after `n` others.
pub open spec fn coin_at(words: Map<nat, u32>, n: nat) -> bool {
    crate::chance::ratio_drawn(after_coins(words, n), 1, 2).0
}

proof fn lemma_coins_shift(words: Map<nat, u32>, first: nat, n: nat)
    ensures
        after_coins(after_coins(words, first), n) == after_coins(words, first + n),
    decreases n,
{
    if n > 0 {
        lemma_coins_shift(words, first, (n - 1) as nat);
    }
}

proof fn lemma_kept_by_coins(entry: bool, words: Map<nat, u32>, n: nat)
    ensures
        ({
            let (ops, left) = kept_drawn(entry, words, n);
            &&& ops.len() == n
            &&& forall|i: int|
                0 <= i < n ==> #[trigger] ops[i] == if entry && coin_at(words, i as nat) {
                    OpFate::Kept
                } else {
                    OpFate::Lost
                }
            &&& left == if entry {
                after_coins(words, n)
            } else {
                words
            }
        }),
    decreases n,
{
    if n > 0 {
        lemma_kept_by_coins(entry, words, (n - 1) as nat);
    }
}

/// A creation whose directory was never synced hangs on a coin of its own, the
/// first that is tossed: it stays if and only if the coin says so, whatever was
/// synced of its data.
pub proof fn unsynced_creations_hang_on_a_coin(
    file: FileView,
    tearing: Option<nat>,
    words: Map<nat, u32>,
)
    requires
        file.volatile is Some,
        !file.dirent_durable,
    ensures
        after_crash(file, tearing, fate_drawn(file, tearing, words).0) is Some
            <==> crate::chance::ratio_drawn(words, 1, 2).0,
        !crate::chance::ratio_drawn(words, 1, 2).0 ==> fate_drawn(file, tearing, words).1
            == crate::chance::ratio_drawn(words, 1, 2).1,
{
    lemma_kept_by_coins(
        entry_drawn(file, words).0,
        entry_drawn(file, words).1,
        file.volatile->0.pending.len(),
    );
    lemma_last_kept(
        file.volatile->0.pending,
        kept_drawn(
            entry_drawn(file, words).0,
            entry_drawn(file, words).1,
            file.volatile->0.pending.len(),
        ).0,
        file.volatile->0.pending.len(),
    );
}

/// So does a removal whose directory was never synced: the file is gone if and
/// only if the coin says so, and comes back with its durable content if not.
pub proof fn unsynced_removals_hang_on_a_coin(
    file: FileView,
    data: Seq<u8>,
    tearing: Option<nat>,
    words: Map<nat, u32>,
)
    requires
        file.volatile is None,
        file.dirent_durable,
        file.durable == Some(data),
    ensures
        after_crash(file, tearing, fate_drawn(file, tearing, words).0) == if crate::chance::ratio_drawn(
            words,
            1,
            2,
        ).0 {
            None
        } else {
            Some(settled(data))
        },
        fate_drawn(file, tearing, words).1 == crate::chance::ratio_drawn(words, 1, 2).1,
{
}

/// What is durable hangs on no coin: a file whose entry is durable and of which
/// nothing is pending stays, one whose removal is durable stays away, and
/// neither uses up a word.
pub proof fn durable_changes_take_no_coin(
    file: FileView,
    tearing: Option<nat>,
    words: Map<nat, u32>,
)
    requires
        file.dirent_durable == file.volatile is Some,
        file.volatile matches Some(v) ==> v.pending.len() == 0,
    ensures
        after_crash(file, tearing, fate_drawn(file, tearing, words).0) is Some
            <==> file.volatile is Some,
        fate_drawn(file, tearing, words).1 == words,
{
}

/// Where nothing tears, each pending operation of a file that stays is kept or
/// lost by a coin of its own, tossed in the order of the operations, after the
/// one for the entry where that is volatile.
pub proof fn each_pending_operation_hangs_on_its_own_coin(
    file: FileView,
    words: Map<nat, u32>,
    i: int,
)
    requires
        file.volatile is Some,
        0 <= i < file.volatile->0.pending.len(),
        file.dirent_durable || coin_at(words, 0),
    ensures
        ({
            let before: nat = if file.dirent_durable {
                0
            } else {
                1
            };
            let (fate, left) = fate_drawn(file, None, words);
            &&& fate.ops[i] == if coin_at(words, (before + i) as nat) {
                OpFate::Kept
            } else {
                OpFate::Lost
            }
            &&& left == after_coins(words, before + file.volatile->0.pending.len())
        }),
{
    let n = file.volatile->0.pending.len();
    assert(after_coins(words, 0) == words);
    if file.dirent_durable {
        lemma_kept_by_coins(true, words, n);
    } else {
        assert(after_coins(words, 1) == crate::chance::ratio_drawn(after_coins(words, 0), 1, 2).1);
        lemma_kept_by_coins(true, after_coins(words, 1), n);
        lemma_coins_shift(words, 1, n);
        lemma_coins_shift(words, 1, i as nat);
    }
}

/// With tearing, the operations are kept and lost as they are without it, but
/// for the last write that is kept: three times in ten it is torn, and then a
/// coin decides between the first sectors alone and all but one.
pub proof fn tearing_strikes_the_last_kept_write(
    file: FileView,
    granularity: nat,
    words: Map<nat, u32>,
    i: int,
)
    requires
        file.volatile is Some,
        0 <= i < file.volatile->0.pending.len(),
        granularity > 0,
    ensures
        ({
            let pending = file.volatile->0.pending;
            let (whole, rest) = fate_drawn(file, None, words);
            let (fate, _) = fate_drawn(file, Some(granularity), words);
            let struck_one = pending[i] is Write && whole.ops[i] == OpFate::Kept && forall|j: int|
                i < j < pending.len() && #[trigger] pending[j] is Write ==> whole.ops[j]
                    == OpFate::Lost;
            let (tears, after) = crate::chance::ratio_drawn(rest, 3, 10);
            &&& fate.entry == whole.entry
            &&& !struck_one || !tears ==> fate.ops[i] == whole.ops[i]
            &&& struck_one && tears && pending[i]->Write_data.len() > 0 ==> {
                let (prefix, last) = crate::chance::ratio_drawn(after, 1, 2);
                let sector = crate::chance::range_drawn(
                    last,
                    sectors(pending[i]->Write_data.len(), granularity),
                ).0;
                fate.ops[i] == OpFate::Torn(
                    if prefix {
                        Tear::Prefix(sector as usize)
                    } else {
                        Tear::Hole(sector as usize)
                    },
                )
            }
        }),
{
    let pending = file.volatile->0.pending;
    let (entry, start) = entry_drawn(file, words);
    lemma_kept_by_coins(entry, start, pending.len());
    let kept = kept_drawn(entry, start, pending.len()).0;
    lemma_last_kept(pending, kept, pending.len());
    if pending[i] is Write && pending[i]->Write_data.len() > 0 {
        let len = pending[i]->Write_data.len() as int;
        let g = granularity as int;
        assert((len + g - 1) / g >= 1) by (nonlinear_arith)
            requires
                len > 0,
                g > 0,
        ;
    }
    match last_kept(pending, kept, pending.len()) {
        Some(k) => {
            if i < k {
                assert(pending[k as int] is Write && kept[k as int] == OpFate::Kept);
            }
        },
        None => {},
    }
}

/// How many of the first `n` directories are not durable.
pub open spec fn loose(durable: Seq<bool>, n: nat) -> nat
    decreases n,
{
    if n == 0 {
        0
    } else {
        loose(durable, (n - 1) as nat) + if durable[n - 1] {
            0nat
        } else {
            1nat
        }
    }
}

proof fn lemma_dirs_by_coins(durable: Seq<bool>, words: Map<nat, u32>, n: nat)
    requires
        n <= durable.len(),
    ensures
        ({
            let (stay, left) = dirs_drawn(durable, words, n);
            &&& stay.len() == n
            &&& left == after_coins(words, loose(durable, n))
            &&& forall|i: int|
                0 <= i < n ==> #[trigger] stay[i] == (durable[i] || coin_at(
                    words,
                    loose(durable, i as nat),
                ))
        }),
    decreases n,
{
    if n > 0 {
        lemma_dirs_by_coins(durable, words, (n - 1) as nat);
    }
}

/// Each directory that is not durable stays or vanishes by a coin of its own, in
/// their order; a durable one stays and takes none.
pub proof fn each_loose_directory_hangs_on_its_own_coin(
    durable: Seq<bool>,
    words: Map<nat, u32>,
    i: int,
)
    requires
        0 <= i < durable.len(),
    ensures
        dirs_drawn(durable, words, durable.len()).0[i] == (durable[i] || coin_at(
            words,
            loose(durable, i as nat),
        )),
        dirs_drawn(durable, words, durable.len()).1 == after_coins(
            words,
            loose(durable, durable.len()),
        ),
{
    lemma_dirs_by_coins(durable, words, durable.len());
}

proof fn lemma_fates_one_by_one(
    files: Seq<FileView>,
    tearing: Option<nat>,
    words: Map<nat, u32>,
    i: int,
    n: nat,
)
    requires
        0 <= i < n <= files.len(),
    ensures
        fates_drawn(files, tearing, words, n).0.len() == n,
        fates_drawn(files, tearing, words, n).0[i] == fate_drawn(
            files[i],
            tearing,
            fates_drawn(files, tearing, words, i as nat).1,
        ).0,
    decreases n,
{
    lemma_fates_length(files, tearing, words, (n - 1) as nat);
    if i < n - 1 {
        lemma_fates_one_by_one(files, tearing, words, i, (n - 1) as nat);
    }
}

proof fn lemma_fates_length(
    files: Seq<FileView>,
    tearing: Option<nat>,
    words: Map<nat, u32>,
    n: nat,
)
    ensures
        fates_drawn(files, tearing, words, n).0.len() == n,
    decreases n,
{
    if n > 0 {
        lemma_fates_length(files, tearing, words, (n - 1) as nat);
    }
}

/// The files meet their fates one after the other: each draws from the words
/// that those before it left, and the last one leaves what the next crash draws
/// from.
pub proof fn files_draw_one_after_the_other(
    files: Seq<FileView>,
    tearing: Option<nat>,
    words: Map<nat, u32>,
    i: int,
)
    requires
        0 <= i < files.len(),
    ensures
        fates_drawn(files, tearing, words, files.len()).0[i] == fate_drawn(
            files[i],
            tearing,
            fates_drawn(files, tearing, words, i as nat).1,
        ).0,
        fates_drawn(files, tearing, words, 0).1 == words,
        fates_drawn(files, tearing, words, (i + 1) as nat).1 == fate_drawn(
            files[i],
            tearing,
            fates_drawn(files, tearing, words, i as nat).1,
        ).1,
{
    lemma_fates_one_by_one(files, tearing, words, i, files.len());
}

// ---------- what an operation does to a content ----------

/// A write puts its bytes where it says and nothing elsewhere, and the file
/// reaches as far as it did and as the write does.
pub proof fn a_write_changes_its_range_alone(
    data: Seq<u8>,
    offset: nat,
    src: Seq<u8>,
    k: int,
)
    requires
        0 <= k,
    ensures
        byte_at(applied(data, Change::Write { offset, data: src }), k) == if offset <= k < offset
            + src.len() {
            src[k - offset]
        } else {
            byte_at(data, k)
        },
        applied(data, Change::Write { offset, data: src }).len() == if data.len() < offset
            + src.len() {
            offset + src.len()
        } else {
            data.len()
        },
{
}

/// A change of length keeps the bytes that still fit and pads with zeros.
pub proof fn a_change_of_length_keeps_what_fits(data: Seq<u8>, len: nat, k: int)
    requires
        0 <= k,
    ensures
        applied(data, Change::SetLen(len)).len() == len,
        byte_at(applied(data, Change::SetLen(len)), k) == if k < len {
            byte_at(data, k)
        } else {
            0
        },
{
}

/// A torn write reaches the disk by whole sectors: either the first ones alone,
/// and the file grows no further than they reach, or all but one, which keeps
/// its stale bytes.
pub proof fn a_torn_write_lands_by_whole_sectors(
    data: Seq<u8>,
    offset: nat,
    src: Seq<u8>,
    granularity: nat,
    sector: usize,
    k: int,
)
    requires
        granularity > 0,
        sector < sectors(src.len(), granularity),
        0 <= k < src.len(),
    ensures
        ({
            let change = Change::Write { offset, data: src };
            let front = struck(
                data,
                change,
                Some(granularity),
                OpFate::Torn(Tear::Prefix(sector)),
            );
            let holed = struck(data, change, Some(granularity), OpFate::Torn(Tear::Hole(sector)));
            let start = sector * granularity;
            &&& byte_at(front, offset + k) == if k < start {
                src[k]
            } else {
                byte_at(data, offset + k)
            }
            &&& front.len() == if data.len() < offset + start {
                offset + start
            } else {
                data.len() as int
            }
            &&& byte_at(holed, offset + k) == if start <= k < start + granularity {
                byte_at(data, offset + k)
            } else {
                src[k]
            }
            &&& holed.len() == if data.len() < offset + src.len() {
                offset + src.len()
            } else {
                data.len()
            }
        }),
{
    lemma_sectors(src.len(), granularity, sector as int);
}

/// A torn tail holds everything that was pending, but for the end of the last
/// write: where nothing was pending behind that write, the file is what the
/// operations before it left, with the first bytes of the write on top.
pub proof fn a_torn_tail_keeps_everything_else(
    file: FileView,
    keep: nat,
    offset: nat,
    src: Seq<u8>,
)
    requires
        file.volatile is Some,
        file.volatile->0.pending.len() > 0,
        file.volatile->0.pending.last() == (Change::Write { offset, data: src }),
    ensures
        ({
            let v = file.volatile->0;
            let before = all_applied(base_of(file, v.base_durable), v.pending.drop_last());
            let kept = if keep < src.len() {
                src.take(keep as int)
            } else {
                src
            };
            torn_file(file, keep) == settled(
                applied(before, Change::Write { offset, data: kept }),
            )
        }),
{
    let v = file.volatile->0;
    let n = v.pending.len();
    let base = base_of(file, v.base_durable);
    lemma_whole_front(base, v.pending, (n - 1) as nat, Some((n - 1) as nat), keep);
    assert(v.pending.take(n - 1) =~= v.pending.drop_last());
    assert(src.take(src.len() as int) =~= src);
}

proof fn lemma_whole_front(
    data: Seq<u8>,
    pending: Seq<Change>,
    n: nat,
    last: Option<nat>,
    keep: nat,
)
    requires
        n <= pending.len(),
        last matches Some(k) ==> n <= k,
    ensures
        torn_tail(data, pending, n, last, keep) == all_applied(data, pending.take(n as int)),
    decreases n,
{
    if n > 0 {
        lemma_whole_front(data, pending, (n - 1) as nat, last, keep);
        assert(pending.take(n as int).drop_last() =~= pending.take(n - 1));
    }
}

// ---------- names and entries ----------

/// A name below a directory is its entry exactly when nothing lies between them,
/// and the top level is a directory like any other.
pub proof fn entries_lie_directly_in_their_directory(dir: Seq<char>, name: Seq<char>)
    requires
        name.len() > 0,
        dir.len() > 0,
    ensures
        entry_in(dir + "/"@ + name, dir_prefix(dir)) == if name.contains('/') {
            None
        } else {
            Some(name)
        },
        entry_in(name, dir_prefix(Seq::empty())) == if name.contains('/') {
            None
        } else {
            Some(name)
        },
{
    crate::text::prefixes_come_off(dir + "/"@, name);
    crate::text::prefixes_come_off(Seq::<char>::empty(), name);
    assert(Seq::<char>::empty() + name =~= name);
}

/// The directories that lead to a path are its beginnings, component by
/// component, and the path itself.
pub proof fn directories_lead_to_their_path(parts: Seq<Seq<char>>, n: nat)
    requires
        0 < n <= parts.len(),
        forall|i: int| 0 <= i < parts.len() ==> (#[trigger] parts[i]).len() > 0
            && !parts[i].contains('/'),
    ensures
        leads_to(path_upto(parts, n), crate::text::listed(parts, '/')),
        path_upto(parts, 1) == parts[0],
        n > 1 ==> path_upto(parts, n) == path_upto(parts, (n - 1) as nat) + "/"@ + parts[n - 1],
        path_upto(parts, n).len() > 0,
    decreases n,
{
    crate::text::lists_are_split_into_their_items(parts, '/');
    reveal_with_fuel(path_upto, 2);
    assert(parts[n - 1].len() > 0);
    if n > 1 {
        directories_lead_to_their_path(parts, (n - 1) as nat);
    }
}

/// A removed file has no content, but what was durable of it can still come
/// back; a renamed one has the content that was moved, and its name is not yet
/// durable.
pub proof fn removals_and_renames_are_volatile(
    file: FileView,
    target: Option<FileView>,
    data: Seq<u8>,
)
    ensures
        content(CrashableBacking::removed(file)) is None,
        CrashableBacking::removed(file).durable == file.durable,
        CrashableBacking::removed(file).dirent_durable == file.dirent_durable,
        content(CrashableBacking::renamed(target, data)) == Some(data),
        !CrashableBacking::renamed(target, data).dirent_durable,
        CrashableBacking::renamed(target, data).durable == match target {
            Some(f) => f.durable,
            None => None,
        },
{
    let moved = CrashableBacking::renamed(target, data);
    let pending = moved.volatile->0.pending;
    assert(pending.drop_last() =~= Seq::<Change>::empty());
    assert(all_applied(Seq::<u8>::empty(), pending.drop_last()) == Seq::<u8>::empty());
    assert(content(moved)->0 =~= data);
}

/// Losing everything volatile leaves exactly the files whose entry and content
/// are durable, with that content.
pub proof fn the_worst_crash_leaves_what_is_durable(file: FileView)
    ensures
        all_lost(file) == if file.dirent_durable && file.durable is Some {
            Some(settled(file.durable->0))
        } else {
            None
        },
{
}

/// Syncing a directory makes its entries durable: a file that is there stays for
/// good, and one that was removed is gone for good.
pub proof fn synced_directories_keep_their_entries(file: FileView)
    ensures
        file.volatile is Some ==> entry_synced(Some(file)) == Some(
            FileView { dirent_durable: true, ..file },
        ),
        file.volatile is None && (file.durable is Some || file.dirent_durable) ==> entry_synced(
            Some(file),
        ) is None,
        entry_synced(None) is None,
{
}

/// A tear strikes a sector that begins inside the write.
pub proof fn tears_strike_inside_the_write(len: nat, granularity: nat, k: usize)
    requires
        len > 0,
        granularity > 0,
    ensures
        tear_fits(len, granularity, Tear::Prefix(k)) <==> k * granularity < len,
        tear_fits(len, granularity, Tear::Hole(k)) <==> k * granularity < len,
{
    let n = sectors(len, granularity);
    assert(k < n <==> k * granularity < len) by (nonlinear_arith)
        requires
            n == (len + granularity - 1) / (granularity as int),
            len > 0,
            granularity > 0,
    ;
}

/// A crash leaves durable directories, and of the others those that its coins
/// spare; it turns each file into what its fate says, forgets the count of
/// writes, and touches neither locks nor free space.
pub proof fn crashes_spare_what_is_durable(
    after: &CrashableBacking,
    before: &CrashableBacking,
    stay: Seq<bool>,
    fates: Seq<FateView>,
    i: int,
    j: int,
    name: Seq<char>,
)
    requires
        after.crashed(before, stay, fates),
        before.named(),
        stay.len() == before.dir_names().len(),
        fates.len() == before.file_names().len(),
        0 <= i < before.dir_names().len(),
        0 <= j < before.file_names().len(),
    ensures
        before.dir(before.dir_names()[i]) == Some(true) ==> after.dir(before.dir_names()[i])
            == Some(true),
        before.dir(before.dir_names()[i]) == Some(false) ==> after.dir(before.dir_names()[i])
            == if stay[i] {
            Some(true)
        } else {
            None
        },
        before.dir(name) is None ==> after.dir(name) is None,
        before.file(name) is None ==> after.file(name) is None,
        before.file(before.file_names()[j]) matches Some(f) ==> after.file(before.file_names()[j])
            == after_crash(f, before.granularity(), fates[j]),
        after.writes() == 0,
        after.free() == before.free(),
        after.locked(name) == before.locked(name),
{
    assert(before.dir_names().contains(before.dir_names()[i]));
    assert(before.file_names().contains(before.file_names()[j]));
    assert(before.durable_dirs()[i] == (before.dir(before.dir_names()[i]) == Some(true)));
    assert(before.known_files()[j] == before.file(before.file_names()[j])->Some_0);
}

/// A pending operation shows to every reader at once, and none of what is durable
/// changes.
pub proof fn pending_operations_show_at_once(file: FileView, change: Change)
    requires
        file.volatile is Some,
    ensures
        content(CrashableBacking::with_pending(file, change)) == Some(
            applied(content(file)->0, change),
        ),
        CrashableBacking::with_pending(file, change).durable == file.durable,
        CrashableBacking::with_pending(file, change).dirent_durable == file.dirent_durable,
{
    let v = file.volatile->0;
    assert(v.pending.push(change).drop_last() =~= v.pending);
}

/// A directory lists exactly the files that are there and the directories that
/// lie directly in it.
pub proof fn directories_list_what_lies_in_them(
    backing: &CrashableBacking,
    dir: Seq<char>,
    own: Seq<char>,
)
    requires
        own.len() > 0,
        !own.contains('/'),
    ensures
        dir.len() > 0 ==> (backing.lists(dir, own) <==> backing.has_file(dir + "/"@ + own)
            || backing.dir(dir + "/"@ + own) is Some),
        backing.lists(Seq::empty(), own) <==> backing.has_file(own) || backing.dir(own) is Some,
{
    lemma_lists(backing, dir, own);
    lemma_lists(backing, Seq::empty(), own);
    assert(dir_prefix(Seq::empty()) + own =~= own);
}

proof fn lemma_lists(backing: &CrashableBacking, dir: Seq<char>, own: Seq<char>)
    requires
        own.len() > 0,
        !own.contains('/'),
    ensures
        backing.lists(dir, own) <==> backing.has_file(dir_prefix(dir) + own) || backing.dir(
            dir_prefix(dir) + own,
        ) is Some,
{
    let prefix = dir_prefix(dir);
    let name = prefix + own;
    crate::text::prefixes_come_off(prefix, own);
    assert(entry_in(name, prefix) == Some(own));
    if backing.lists(dir, own) {
        let n = choose|n: Seq<char>| #[trigger]
            entry_in(n, dir_prefix(dir)) == Some(own) && (backing.has_file(n) || backing.dir(n)
                is Some);
        assert(n =~= prefix + own);
    }
}

/// A file that is not there is named, with the word that it was removed where it
/// was.
pub proof fn missing_files_are_named(backing: &CrashableBacking, path: Seq<char>)
    ensures
        backing.missing(path) is None <==> backing.has_file(path),
        backing.file(path) is None ==> backing.missing(path) == Some(path),
        backing.file(path) is Some && !backing.has_file(path) ==> backing.missing(path) == Some(
            path + " (removed)"@,
        ),
{
}

} // verus!
