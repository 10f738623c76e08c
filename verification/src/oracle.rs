//! Randomized durability sequences: a trivial direct-write store over the
//! crash-simulating backing and the reference model are driven with the same
//! random operations, and every observation of the store is checked against
//! the model.

use vstd::prelude::*;

use crate::chance::{below_u32, below_u64, chance, seeded};
use crate::crash_backing::{CrashFile, CrashableBacking};
use crate::model::{same_bytes, show_optional_byte, OracleViolation, ReferenceBlockModel};

verus! {

broadcast use vstd::seq::group_seq_axioms;

/// The shape of a random sequence.
#[derive(Debug, Clone, Copy)]
pub struct SequenceConfig {
    pub num_units: u64,
    pub unit_size: usize,
    pub ops: usize,
}

/// The bytes of one unit.
pub open spec fn slot(data: Seq<u8>, unit: int, size: int) -> Seq<u8> {
    data.subrange(unit * size, unit * size + size)
}

/// The operation writes exactly one unit.
pub open spec fn writes_unit(
    change: crate::crash_backing::Change,
    unit: int,
    size: int,
) -> bool {
    match change {
        crate::crash_backing::Change::Write { offset, data } => offset == unit * size && data.len()
            == size,
        crate::crash_backing::Change::SetLen(_) => false,
    }
}

/// The operation writes exactly one of the units.
pub open spec fn writes_some_unit(
    change: crate::crash_backing::Change,
    units: nat,
    size: int,
) -> bool {
    exists|u: u64| u < units && #[trigger] writes_unit(change, u as int, size)
}

/// The value that a write carries.
pub open spec fn carried(change: crate::crash_backing::Change) -> Seq<u8> {
    match change {
        crate::crash_backing::Change::Write { data, .. } => data,
        crate::crash_backing::Change::SetLen(_) => Seq::empty(),
    }
}

/// Every value that the model knows has the size of a unit.
pub open spec fn sized(model: &ReferenceBlockModel) -> bool {
    forall|u: u64|
        #![trigger model.durable_value(u)]
        #![trigger model.versions(u)]
        {
            &&& model.durable_value(u).len() == model.size()
            &&& forall|i: int|
                0 <= i < model.versions(u).len() ==> (#[trigger] model.versions(u)[i]).len()
                    == model.size()
        }
}

/// Everything that may be in a unit of the file is allowed by the model: what
/// is durable, and what each pending write carries.
pub open spec fn within(
    model: &ReferenceBlockModel,
    durable: Seq<u8>,
    pending: Seq<crate::crash_backing::Change>,
) -> bool {
    let size = model.size() as int;
    &&& durable.len() == model.units() * size
    &&& forall|u: u64|
        u < model.units() ==> #[trigger] model.allows(u, slot(durable, u as int, size))
    &&& forall|i: int|
        0 <= i < pending.len() ==> writes_some_unit(#[trigger] pending[i], model.units(), size)
    &&& forall|i: int, u: u64|
        0 <= i < pending.len() && u < model.units() && #[trigger] writes_unit(
            pending[i],
            u as int,
            size,
        ) ==> model.allows(u, carried(pending[i]))
}

/// What a reader of the file sees is what the model says.
pub open spec fn agrees(model: &ReferenceBlockModel, data: Seq<u8>) -> bool {
    forall|u: u64|
        u < model.units() ==> #[trigger] model.current(u) == slot(
            data,
            u as int,
            model.size() as int,
        )
}

/// The file tracks the model.
pub open spec fn tracks(
    model: &ReferenceBlockModel,
    file: Option<crate::crash_backing::FileView>,
) -> bool {
    &&& sized(model)
    &&& file matches Some(f) && {
        &&& f.dirent_durable
        &&& f.durable is Some
        &&& f.volatile matches Some(v) && {
            &&& v.base_durable
            &&& within(model, f.durable->0, v.pending)
            &&& agrees(model, crate::crash_backing::content(f)->0)
        }
    }
}

proof fn lemma_units_apart(u: int, w: int, units: int, size: int)
    requires
        0 <= u < units,
        0 <= w < units,
        0 <= size,
    ensures
        0 <= u * size,
        u * size + size <= units * size,
        u < w ==> u * size + size <= w * size,
        w < u ==> w * size + size <= u * size,
{
    assert(0 <= u * size) by (nonlinear_arith)
        requires
            0 <= u,
            0 <= size,
    ;
    assert(u * size + size <= units * size) by (nonlinear_arith)
        requires
            u + 1 <= units,
            0 <= size,
    ;
    if u < w {
        assert(u * size + size <= w * size) by (nonlinear_arith)
            requires
                u + 1 <= w,
                0 <= size,
        ;
    }
    if w < u {
        assert(w * size + size <= u * size) by (nonlinear_arith)
            requires
                w + 1 <= u,
                0 <= size,
        ;
    }
}

/// Writing one unit leaves the length and every other unit as they were.
pub proof fn a_unit_write_touches_one_unit(
    data: Seq<u8>,
    change: crate::crash_backing::Change,
    u: int,
    w: int,
    units: int,
    size: int,
)
    requires
        data.len() == units * size,
        0 <= u < units,
        0 <= w < units,
        0 <= size,
        writes_unit(change, u, size),
    ensures
        crate::crash_backing::applied(data, change).len() == data.len(),
        slot(crate::crash_backing::applied(data, change), w, size) == if u == w {
            carried(change)
        } else {
            slot(data, w, size)
        },
{
    lemma_units_apart(u, w, units, size);
    lemma_units_apart(w, u, units, size);
    let after = crate::crash_backing::applied(data, change);
    assert(after.len() == data.len());
    if u == w {
        assert(slot(after, w, size) =~= carried(change));
    } else {
        assert(slot(after, w, size) =~= slot(data, w, size));
    }
}

proof fn lemma_applied_length(
    model: &ReferenceBlockModel,
    durable: Seq<u8>,
    pending: Seq<crate::crash_backing::Change>,
)
    requires
        within(model, durable, pending),
    ensures
        crate::crash_backing::all_applied(durable, pending).len() == durable.len(),
    decreases pending.len(),
{
    if pending.len() > 0 {
        let init = pending.drop_last();
        lemma_within_init(model, durable, pending);
        lemma_applied_length(model, durable, init);
        assert(writes_some_unit(
            pending[pending.len() - 1],
            model.units(),
            model.size() as int,
        ));
        let u = choose|u: u64|
            u < model.units() && #[trigger] writes_unit(
                pending[pending.len() - 1],
                u as int,
                model.size() as int,
            );
        a_unit_write_touches_one_unit(
            crate::crash_backing::all_applied(durable, init),
            pending.last(),
            u as int,
            u as int,
            model.units() as int,
            model.size() as int,
        );
    }
}

proof fn lemma_within_init(
    model: &ReferenceBlockModel,
    durable: Seq<u8>,
    pending: Seq<crate::crash_backing::Change>,
)
    requires
        within(model, durable, pending),
        pending.len() > 0,
    ensures
        within(model, durable, pending.drop_last()),
{
    let init = pending.drop_last();
    let size = model.size() as int;
    assert(forall|i: int| 0 <= i < init.len() ==> #[trigger] init[i] == pending[i]);
    assert forall|i: int| 0 <= i < init.len() implies writes_some_unit(
        #[trigger] init[i],
        model.units(),
        size,
    ) by {
        assert(writes_some_unit(pending[i], model.units(), size));
    }
    assert forall|i: int, u: u64|
        0 <= i < init.len() && u < model.units() && #[trigger] writes_unit(
            init[i],
            u as int,
            size,
        ) implies model.allows(u, carried(init[i])) by {
        assert(writes_unit(pending[i], u as int, size));
    }
}

/// Whatever a crash keeps of the pending writes, each unit ends up with a value
/// that the model allows.
pub proof fn a_crash_leaves_allowed_values(
    model: &ReferenceBlockModel,
    durable: Seq<u8>,
    pending: Seq<crate::crash_backing::Change>,
    fates: Seq<crate::crash_backing::OpFate>,
    unit: u64,
)
    requires
        within(model, durable, pending),
        unit < model.units(),
        forall|i: int|
            0 <= i < pending.len() ==> crate::crash_backing::op_can_meet(
                #[trigger] pending[i],
                None,
                fates[i],
            ),
    ensures
        crate::crash_backing::survivors(durable, pending, None, fates).len() == durable.len(),
        model.allows(
            unit,
            slot(
                crate::crash_backing::survivors(durable, pending, None, fates),
                unit as int,
                model.size() as int,
            ),
        ),
    decreases pending.len(),
{
    let size = model.size() as int;
    if pending.len() > 0 {
        let init = pending.drop_last();
        let n = pending.len() - 1;
        lemma_within_init(model, durable, pending);
        assert forall|i: int| 0 <= i < init.len() implies crate::crash_backing::op_can_meet(
            #[trigger] init[i],
            None,
            fates[i],
        ) by {
            assert(init[i] == pending[i]);
        }
        a_crash_leaves_allowed_values(model, durable, init, fates, unit);
        let before = crate::crash_backing::survivors(durable, init, None, fates);
        assert(writes_some_unit(pending[n], model.units(), size));
        let u = choose|u: u64|
            u < model.units() && #[trigger] writes_unit(pending[n], u as int, size);
        a_unit_write_touches_one_unit(
            before,
            pending[n],
            u as int,
            unit as int,
            model.units() as int,
            size,
        );
        assert(crate::crash_backing::op_can_meet(pending[n], None, fates[n]));
        assert(pending.last() == pending[n]);
        if u == unit {
            assert(model.allows(u, carried(pending[n])));
        }
    }
}

proof fn lemma_kept(old_model: &ReferenceBlockModel, model: &ReferenceBlockModel, unit: u64, data: Seq<u8>)
    requires
        model.same_geometry(old_model),
        model.same_elsewhere(old_model, unit),
        model.versions(unit) == old_model.versions(unit).push(data),
        model.durable_value(unit) == old_model.durable_value(unit),
    ensures
        forall|u: u64, value: Seq<u8>| #[trigger]
            old_model.allows(u, value) ==> model.allows(u, value),
        forall|u: u64| u != unit ==> #[trigger] model.current(u) == old_model.current(u),
        model.current(unit) == data,
        model.allows(unit, data),
{
    let versions = model.versions(unit);
    assert(versions[versions.len() - 1] == data);
    assert forall|u: u64, value: Seq<u8>| #[trigger] old_model.allows(u, value) implies model.allows(
        u,
        value,
    ) by {
        if u == unit {
            if old_model.versions(unit).contains(value) {
                let k = old_model.versions(unit).index_of(value);
                assert(versions[k] == value);
            }
        } else {
            assert(model.durable_value(u) == old_model.durable_value(u));
            assert(model.versions(u) == old_model.versions(u));
        }
    }
    assert forall|u: u64| u != unit implies #[trigger] model.current(u) == old_model.current(u) by {
        assert(model.versions(u) == old_model.versions(u));
    }
}

/// The store after a write of one unit still tracks the model after the same
/// write.
proof fn lemma_write_tracks(
    before: crate::crash_backing::FileView,
    old_model: &ReferenceBlockModel,
    model: &ReferenceBlockModel,
    unit: u64,
    change: crate::crash_backing::Change,
)
    requires
        tracks(old_model, Some(before)),
        unit < old_model.units(),
        writes_unit(change, unit as int, old_model.size() as int),
        model.same_geometry(old_model),
        model.same_elsewhere(old_model, unit),
        model.versions(unit) == old_model.versions(unit).push(carried(change)),
        model.durable_value(unit) == old_model.durable_value(unit),
    ensures
        tracks(model, Some(CrashableBacking::with_pending(before, change))),
{
    let after = CrashableBacking::with_pending(before, change);
    let size = model.size() as int;
    let value = carried(change);
    lemma_kept(old_model, model, unit, value);
    let pending = before.volatile->0.pending;
    let more = after.volatile->0.pending;
    let durable = before.durable->0;
    assert(more.drop_last() =~= pending);
    assert forall|u: u64|
        #![trigger model.durable_value(u)]
        #![trigger model.versions(u)]
        model.durable_value(u).len() == model.size() && forall|i: int|
            0 <= i < model.versions(u).len() ==> (#[trigger] model.versions(u)[i]).len()
                == model.size() by {
        assert(old_model.durable_value(u).len() == old_model.size());
        if u != unit {
            assert(model.versions(u) == old_model.versions(u));
        }
    }
    assert(within(model, durable, more)) by {
        assert forall|u: u64| u < model.units() implies #[trigger] model.allows(
            u,
            slot(durable, u as int, size),
        ) by {
            assert(old_model.allows(u, slot(durable, u as int, size)));
        }
        assert forall|i: int| 0 <= i < more.len() implies writes_some_unit(
            #[trigger] more[i],
            model.units(),
            size,
        ) by {
            if i < pending.len() {
                assert(more[i] == pending[i]);
                assert(writes_some_unit(pending[i], model.units(), size));
            } else {
                assert(writes_unit(more[i], unit as int, size));
            }
        }
        assert forall|i: int, u: u64|
            0 <= i < more.len() && u < model.units() && #[trigger] writes_unit(
                more[i],
                u as int,
                size,
            ) implies model.allows(u, carried(more[i])) by {
            if i < pending.len() {
                assert(writes_unit(pending[i], u as int, size));
                assert(old_model.allows(u, carried(pending[i])));
            } else if u != unit {
                lemma_units_apart(u as int, unit as int, model.units() as int, size);
                assert(size == 0);
                assert(model.durable_value(u) =~= carried(more[i]));
            }
        }
    }
    let data = crate::crash_backing::content(before)->0;
    lemma_applied_length(old_model, durable, pending);
    assert forall|u: u64| u < model.units() implies #[trigger] model.current(u) == slot(
        crate::crash_backing::content(after)->0,
        u as int,
        size,
    ) by {
        a_unit_write_touches_one_unit(
            data,
            change,
            unit as int,
            u as int,
            model.units() as int,
            size,
        );
        assert(old_model.current(u) == slot(data, u as int, size));
    }
}

/// A store whose file was just synced tracks every model that agrees with the
/// file.
proof fn lemma_settled_tracks(model: &ReferenceBlockModel, data: Seq<u8>)
    requires
        sized(model),
        data.len() == model.units() * model.size(),
        agrees(model, data),
    ensures
        tracks(model, Some(crate::crash_backing::settled(data))),
{
    let size = model.size() as int;
    assert forall|u: u64| u < model.units() implies #[trigger] model.allows(
        u,
        slot(data, u as int, size),
    ) by {
        crate::model::current_value_may_survive(model, u);
        assert(model.current(u) == slot(data, u as int, size));
    }
    assert(crate::crash_backing::content(crate::crash_backing::settled(data)) == Some(data));
}

/// The stamp that follows another; none is zero.
pub open spec fn stamp_after(stamp: u8) -> u8 {
    if stamp == 255 {
        1
    } else {
        (stamp + 1) as u8
    }
}

fn next_stamp(stamp: u8) -> (r: u8)
    ensures
        r == stamp_after(stamp),
{
    if stamp == 255 {
        1
    } else {
        stamp + 1
    }
}

fn unit_data(stamp: u8, size: usize) -> (r: Vec<u8>)
    ensures
        r@ == Seq::new(size as nat, |i: int| stamp),
{
    let mut out: Vec<u8> = Vec::new();
    let mut i: usize = 0;
    while i < size
        invariant
            i <= size,
            out@ == Seq::new(i as nat, |k: int| stamp),
        decreases size - i,
    {
        out.push(stamp);
        assert(out@ =~= Seq::new((i + 1) as nat, |k: int| stamp));
        i += 1;
    }
    out
}

/// The kinds of operations in a sequence.
#[derive(Debug, Clone, Copy, PartialEq, Eq, Structural)]
pub enum OpKind {
    /// A write that is acknowledged while volatile.
    Write,
    /// A write that is durable once acknowledged.
    WriteFua,
    Flush,
    Crash,
}

/// The operation that a number below a hundred stands for.
pub open spec fn kind_drawn(draw: nat) -> OpKind {
    if draw < 50 {
        OpKind::Write
    } else if draw < 65 {
        OpKind::WriteFua
    } else if draw < 80 {
        OpKind::Flush
    } else {
        OpKind::Crash
    }
}

/// The operation that a number below a hundred stands for: half of them are
/// writes, fifteen in a hundred are forced writes, as many are flushes, and the
/// rest are crashes.
pub fn kind_of(draw: u32) -> (r: OpKind)
    ensures
        r == kind_drawn(draw as nat),
{
    if draw < 50 {
        OpKind::Write
    } else if draw < 65 {
        OpKind::WriteFua
    } else if draw < 80 {
        OpKind::Flush
    } else {
        OpKind::Crash
    }
}

/// Where a random sequence stands: the store's file, the stamp of the last
/// write, and the words that the generator has still to yield.
pub struct Tape {
    pub file: crate::crash_backing::FileView,
    pub stamp: u8,
    pub words: Map<nat, u32>,
}

/// After one operation that is drawn. A write draws the unit to fill with the
/// next stamp; a crash draws what becomes of the pending writes.
pub open spec fn acted(t: Tape, units: u64, size: usize) -> Tape {
    let (draw, rest) = crate::chance::range_drawn(t.words, 100);
    let (unit, after) = crate::chance::wide_range_drawn(rest, units as nat);
    let stamp = stamp_after(t.stamp);
    let data = Seq::new(size as nat, |i: int| stamp);
    let seen = crate::crash_backing::content(t.file)->0;
    match kind_drawn(draw) {
        OpKind::Write => Tape {
            file: CrashableBacking::with_pending(
                t.file,
                crate::crash_backing::Change::Write { offset: unit * size as nat, data },
            ),
            stamp,
            words: after,
        },
        OpKind::WriteFua => Tape {
            file: crate::crash_backing::settled(
                crate::crash_backing::overwritten(seen, unit * size as nat, data),
            ),
            stamp,
            words: after,
        },
        OpKind::Flush => Tape { file: crate::crash_backing::settled(seen), words: rest, ..t },
        OpKind::Crash => {
            let (fate, left) = crate::crash_backing::fate_drawn(t.file, None, rest);
            Tape {
                file: crate::crash_backing::after_crash(t.file, None, fate)->0,
                words: left,
                ..t
            }
        },
    }
}

/// The words that are left once it was drawn whether to look at a unit, and at
/// which.
pub open spec fn glanced(words: Map<nat, u32>, units: u64) -> Map<nat, u32> {
    let (look, rest) = crate::chance::ratio_drawn(words, 1, 4);
    if look {
        crate::chance::wide_range_drawn(rest, units as nat).1
    } else {
        rest
    }
}

/// After the first `n` operations.
pub open spec fn played(t: Tape, units: u64, size: usize, n: nat) -> Tape
    decreases n,
{
    if n == 0 {
        t
    } else {
        let next = acted(played(t, units, size, (n - 1) as nat), units, size);
        Tape { words: glanced(next.words, units), ..next }
    }
}

/// The start of a sequence: a store of zeroed units, and a generator that the
/// seed of the sequence determines.
pub open spec fn sequence_begun(seed: u64, units: u64, size: usize) -> Tape {
    Tape {
        file: crate::crash_backing::settled(crate::model::zeros((units * size) as nat)),
        stamp: 0,
        words: crate::chance::std_seeded(
            seed.wrapping_mul(0x9E37_79B9_7F4A_7C15).wrapping_add(1),
        ),
    }
}

/// A store that writes straight to one file of a crashable backing, and the
/// model that it is held against.
pub struct Run {
    pub backing: CrashableBacking,
    pub file: CrashFile,
    pub model: ReferenceBlockModel,
    pub unit_size: usize,
    pub num_units: u64,
}

impl Run {
    /// What is in the store's file is what the model allows, and what a reader
    /// sees is what the model says.
    pub open spec fn wf(&self) -> bool {
        &&& self.backing.wf()
        &&& self.backing.granularity() is None
        &&& self.file.path@ == "data"@
        &&& self.model.size() == self.unit_size
        &&& self.model.units() == self.num_units
        &&& self.num_units * self.unit_size <= usize::MAX
        &&& tracks(&self.model, self.backing.file("data"@))
        &&& self.alone()
    }

    /// The store's file is the only one, and there are no directories.
    pub open spec fn alone(&self) -> bool {
        &&& forall|n: Seq<char>| #[trigger] self.backing.file(n) is Some ==> n == "data"@
        &&& forall|n: Seq<char>| #[trigger] self.backing.dir(n) is None
    }

    /// Where the run stands, with the stamp of the last write and the words that
    /// the generator has still to yield.
    pub open spec fn tape(&self, stamp: u8, words: Map<nat, u32>) -> Tape {
        Tape { file: self.backing.file("data"@)->0, stamp, words }
    }

    pub open spec fn same_shape(&self, other: &Self) -> bool {
        self.unit_size == other.unit_size && self.num_units == other.num_units
    }

    /// What a reader of the store's file sees.
    pub open spec fn seen(&self) -> Seq<u8> {
        self.backing.data("data"@)->0
    }

    /// A store of zeroed units, all of them durable.
    pub fn start(num_units: u64, unit_size: usize) -> (r: Run)
        requires
            num_units * unit_size <= usize::MAX,
        ensures
            r.wf(),
            r.unit_size == unit_size,
            r.num_units == num_units,
            r.backing.writes() == 0,
            r.backing.file("data"@) == Some(
                crate::crash_backing::settled(
                    crate::model::zeros((num_units * unit_size) as nat),
                ),
            ),
            forall|u: u64|
                #![trigger r.model.durable_value(u)]
                r.model.durable_value(u) == crate::model::zeros(unit_size as nat)
                    && r.model.versions(u).len() == 0,
    {
        let mut backing = CrashableBacking::new();
        let file = match backing.open("data", true, None) {
            Ok(file) => file,
            Err(_) => CrashFile { path: "data".to_owned() },
        };
        assert(num_units * unit_size <= usize::MAX);
        let total: u64 = num_units * (unit_size as u64);
        let ghost opened = backing;
        let _ = backing.set_len(&file, total, None);
        let ghost extended = backing;
        let ghost grown = backing.file("data"@)->0;
        let _ = backing.sync_data(&file, None);
        let ghost flushed = backing;
        let ghost synced = backing.file("data"@)->0;
        let _ = backing.sync_dir("", None);
        let model = ReferenceBlockModel::new(unit_size, num_units);
        proof {
            reveal_strlit("data");
            let data = synced.durable->0;
            let pending = grown.volatile->0.pending;
            assert(pending =~= seq![crate::crash_backing::Change::SetLen(total as nat)]);
            assert(pending.drop_last() =~= Seq::<crate::crash_backing::Change>::empty());
            assert(crate::crash_backing::all_applied(Seq::<u8>::empty(), pending.drop_last())
                =~= Seq::<u8>::empty());
            assert(data =~= crate::model::zeros(total as nat));
            assert("data"@.subrange(0, 0) =~= Seq::<char>::empty());
            assert("data"@.subrange(0, 4) =~= "data"@);
            assert(crate::crash_backing::entry_in(
                "data"@,
                crate::crash_backing::dir_prefix(""@),
            ) is Some) by {
                reveal_strlit("");
                assert(crate::crash_backing::dir_prefix(""@) =~= Seq::<char>::empty());
            }
            assert(backing.file("data"@) == Some(crate::crash_backing::settled(data)));
            assert forall|u: u64| u < model.units() implies #[trigger] model.current(u) == slot(
                data,
                u as int,
                model.size() as int,
            ) by {
                lemma_units_apart(u as int, u as int, num_units as int, unit_size as int);
                assert(model.durable_value(u) =~= slot(data, u as int, unit_size as int));
                assert(model.versions(u).len() == 0);
            }
            lemma_settled_tracks(&model, data);
            assert forall|n: Seq<char>| #[trigger] backing.file(n) is Some implies n == "data"@ by {
                if n != "data"@ {
                    assert(opened.file(n) is None);
                    assert(extended.file(n) is None);
                    assert(flushed.file(n) is None);
                }
            }
            assert forall|n: Seq<char>| #[trigger] backing.dir(n) is None by {
                reveal_strlit("");
                assert(opened.dir(n) is None);
                assert(extended.dir(n) is None);
                assert(flushed.dir(n) is None);
            }
        }
        Run { backing, file, model, unit_size, num_units }
    }

    /// Read one unit of the store.
    pub fn read_unit(&self, unit: u64) -> (r: Vec<u8>)
        requires
            self.wf(),
            unit < self.num_units,
        ensures
            r@ == slot(self.seen(), unit as int, self.unit_size as int),
            r@ == self.model.current(unit),
    {
        proof {
            lemma_units_apart(
                unit as int,
                unit as int,
                self.num_units as int,
                self.unit_size as int,
            );
            let f = self.backing.file("data"@)->0;
            lemma_applied_length(&self.model, f.durable->0, f.volatile->0.pending);
            assert(self.model.current(unit) == slot(
                self.backing.data("data"@)->0,
                unit as int,
                self.unit_size as int,
            ));
        }
        let offset: u64 = unit * (self.unit_size as u64);
        match self.backing.read_at(&self.file, offset, self.unit_size) {
            Ok(bytes) => bytes,
            Err(_) => Vec::new(),
        }
    }

    /// Write one unit, in the store and in the model.
    pub fn write(&mut self, unit: u64, data: &[u8])
        requires
            old(self).wf(),
            unit < old(self).num_units,
            data@.len() == old(self).unit_size,
            old(self).backing.writes() < usize::MAX,
        ensures
            final(self).wf(),
            final(self).same_shape(old(self)),
            final(self).backing.file("data"@) == Some(
                CrashableBacking::with_pending(
                    old(self).backing.file("data"@)->0,
                    crate::crash_backing::Change::Write {
                        offset: (unit * old(self).unit_size) as nat,
                        data: data@,
                    },
                ),
            ),
            final(self).model.versions(unit) == old(self).model.versions(unit).push(data@),
            final(self).model.durable_value(unit) == old(self).model.durable_value(unit),
            final(self).model.same_elsewhere(&old(self).model, unit),
            final(self).backing.writes() == old(self).backing.writes() + 1,
    {
        proof {
            lemma_units_apart(
                unit as int,
                unit as int,
                self.num_units as int,
                self.unit_size as int,
            );
        }
        let ghost before = self.backing.file("data"@)->0;
        let ghost old_model = self.model;
        let offset: u64 = unit * (self.unit_size as u64);
        let _ = self.backing.write_at(&self.file, offset, data, None);
        self.model.write(unit, data);
        proof {
            let change = crate::crash_backing::Change::Write { offset: offset as nat, data: data@ };
            lemma_kept(&old_model, &self.model, unit, data@);
            lemma_write_tracks(before, &old_model, &self.model, unit, change);
        }
    }

    /// Sync the store and tell the model that everything acknowledged is
    /// durable.
    pub fn flush(&mut self)
        requires
            old(self).wf(),
        ensures
            final(self).wf(),
            final(self).same_shape(old(self)),
            final(self).backing.file("data"@) == Some(
                crate::crash_backing::settled(old(self).seen()),
            ),
            forall|u: u64|
                #![trigger final(self).model.durable_value(u)]
                final(self).model.durable_value(u) == old(self).model.current(u)
                    && final(self).model.versions(u).len() == 0,
            final(self).backing.writes() == old(self).backing.writes(),
    {
        let ghost before = self.backing.file("data"@)->0;
        let ghost old_model = self.model;
        let _ = self.backing.sync_data(&self.file, None);
        self.model.flush();
        proof {
            let data = crate::crash_backing::content(before)->0;
            lemma_applied_length(&old_model, before.durable->0, before.volatile->0.pending);
            lemma_flushed(&old_model, &self.model, data);
        }
    }

    /// Write with forced unit access: write, sync, and tell the model.
    pub fn write_fua(&mut self, unit: u64, data: &[u8])
        requires
            old(self).wf(),
            unit < old(self).num_units,
            data@.len() == old(self).unit_size,
            old(self).backing.writes() < usize::MAX,
        ensures
            final(self).wf(),
            final(self).same_shape(old(self)),
            final(self).backing.file("data"@) == Some(
                crate::crash_backing::settled(
                    crate::crash_backing::overwritten(
                        old(self).seen(),
                        (unit * old(self).unit_size) as nat,
                        data@,
                    ),
                ),
            ),
            final(self).model.durable_value(unit) == data@,
            final(self).model.versions(unit).len() == 0,
            final(self).model.same_elsewhere(&old(self).model, unit),
            final(self).backing.writes() == old(self).backing.writes() + 1,
    {
        proof {
            lemma_units_apart(
                unit as int,
                unit as int,
                self.num_units as int,
                self.unit_size as int,
            );
        }
        let ghost before = self.backing.file("data"@)->0;
        let ghost old_model = self.model;
        let offset: u64 = unit * (self.unit_size as u64);
        let _ = self.backing.write_at(&self.file, offset, data, None);
        let ghost written = self.backing.file("data"@)->0;
        let _ = self.backing.sync_data(&self.file, None);
        self.model.write_fua(unit, data);
        proof {
            let size = self.unit_size as int;
            let units = self.num_units as int;
            let change = crate::crash_backing::Change::Write { offset: offset as nat, data: data@ };
            let seen = crate::crash_backing::content(before)->0;
            lemma_applied_length(&old_model, before.durable->0, before.volatile->0.pending);
            assert(written.volatile->0.pending.drop_last() =~= before.volatile->0.pending);
            let now = crate::crash_backing::content(written)->0;
            assert(now == crate::crash_backing::applied(seen, change));
            let model = &self.model;
            a_unit_write_touches_one_unit(seen, change, unit as int, unit as int, units, size);
            assert forall|u: u64| u < model.units() implies #[trigger] model.current(u) == slot(
                now,
                u as int,
                size,
            ) by {
                a_unit_write_touches_one_unit(seen, change, unit as int, u as int, units, size);
                assert(old_model.current(u) == slot(seen, u as int, size));
                if u != unit {
                    assert(model.versions(u) == old_model.versions(u));
                } else {
                    assert(model.versions(u).len() == 0);
                }
            }
            assert forall|u: u64|
                #![trigger model.durable_value(u)]
                #![trigger model.versions(u)]
                model.durable_value(u).len() == model.size() && forall|i: int|
                    0 <= i < model.versions(u).len() ==> (#[trigger] model.versions(u)[i]).len()
                        == model.size() by {
                assert(old_model.durable_value(u).len() == old_model.size());
                if u != unit {
                    assert(model.versions(u) == old_model.versions(u));
                }
            }
            lemma_settled_tracks(model, now);
        }
    }

    /// Crash the store and adopt what is left of each unit: whatever that is, the
    /// model had allowed it.
    pub fn crash(&mut self, rng: &mut rand::rngs::StdRng) -> (r: Result<(), OracleViolation>)
        requires
            old(self).wf(),
        ensures
            r is Ok,
            final(self).wf(),
            final(self).same_shape(old(self)),
            final(self).backing.writes() == 0,
            crate::crash_backing::may_become(
                old(self).backing.file("data"@),
                final(self).backing.file("data"@),
                None,
            ),
            final(self).backing.file("data"@) == Some(
                crate::crash_backing::settled(final(self).seen()),
            ),
            ({
                let before = old(self).backing.file("data"@)->0;
                let (fate, left) = crate::crash_backing::fate_drawn(
                    before,
                    None,
                    crate::chance::std_words(*old(rng)),
                );
                final(self).backing.file("data"@) == crate::crash_backing::after_crash(
                    before,
                    None,
                    fate,
                ) && crate::chance::std_words(*final(rng)) == left
            }),
            forall|u: u64|
                #![trigger final(self).model.durable_value(u)]
                u < old(self).num_units ==> {
                    &&& final(self).model.durable_value(u) == slot(
                        final(self).seen(),
                        u as int,
                        old(self).unit_size as int,
                    )
                    &&& final(self).model.versions(u).len() == 0
                    &&& old(self).model.allows(u, final(self).model.durable_value(u))
                },
    {
        let ghost before = self.backing.file("data"@)->0;
        let ghost old_model = self.model;
        let ghost held = self.backing;
        let ghost words = crate::chance::std_words(*rng);
        self.backing.crash(rng);
        proof {
            let names = held.file_names();
            assert(held.file("data"@) is Some);
            lemma_single(names, "data"@);
            assert(held.dir_names() =~= Seq::empty()) by {
                if held.dir_names().len() > 0 {
                    assert(held.dir_names().contains(held.dir_names()[0]));
                }
            }
            reveal_with_fuel(crate::crash_backing::fates_drawn, 2);
            let (drawn, rest) = crate::crash_backing::fate_drawn(before, None, words);
            assert(held.known_files()[0] == before);
            assert(self.backing.file(held.file_names()[0]) == crate::crash_backing::after_crash(
                before,
                None,
                drawn,
            ));
            assert(crate::chance::std_words(*rng) == rest);
            assert forall|n: Seq<char>| #[trigger] self.backing.file(n) is Some implies n
                == "data"@ by {
                if n != "data"@ {
                    assert(!names.contains(n));
                }
            }
            assert forall|n: Seq<char>| #[trigger] self.backing.dir(n) is None by {
                assert(!held.dir_names().contains(n));
            }
        }
        let ghost fate = choose|fate: crate::crash_backing::FateView| #[trigger]
            crate::crash_backing::can_meet(before, None, fate) && self.backing.file("data"@)
                == crate::crash_backing::after_crash(before, None, fate);
        let ghost left = crate::crash_backing::survivors(
            before.durable->0,
            before.volatile->0.pending,
            None,
            fate.ops,
        );
        proof {
            assert(crate::crash_backing::may_become(
                Some(before),
                self.backing.file("data"@),
                None,
            ));
            assert(self.backing.file("data"@) == Some(crate::crash_backing::settled(left)));
            assert(crate::crash_backing::content(crate::crash_backing::settled(left)) == Some(
                left,
            ));
            assert forall|u: u64| u < old_model.units() implies #[trigger] old_model.allows(
                u,
                slot(left, u as int, old_model.size() as int),
            ) by {
                a_crash_leaves_allowed_values(
                    &old_model,
                    before.durable->0,
                    before.volatile->0.pending,
                    fate.ops,
                    u,
                );
            }
            if old_model.units() > 0 {
                a_crash_leaves_allowed_values(
                    &old_model,
                    before.durable->0,
                    before.volatile->0.pending,
                    fate.ops,
                    0,
                );
            } else {
                lemma_no_units(&old_model, before.durable->0, before.volatile->0.pending, fate.ops);
            }
        }
        let file = match self.backing.open("data", false, None) {
            Ok(file) => file,
            Err(_) => CrashFile { path: "data".to_owned() },
        };
        let mut unit: u64 = 0;
        while unit < self.num_units
            invariant
                unit <= self.num_units,
                self.same_shape(old(self)),
                self.backing.wf(),
                self.backing.granularity() is None,
                self.backing.writes() == 0,
                self.file.path@ == "data"@,
                file.path@ == "data"@,
                self.model.size() == self.unit_size,
                self.model.units() == self.num_units,
                self.num_units * self.unit_size <= usize::MAX,
                self.backing.file("data"@) == Some(crate::crash_backing::settled(left)),
                self.alone(),
                crate::crash_backing::content(crate::crash_backing::settled(left)) == Some(left),
                left.len() == self.num_units * self.unit_size,
                sized(&self.model),
                forall|u: u64|
                    u < unit ==> #[trigger] self.model.current(u) == slot(
                        left,
                        u as int,
                        self.unit_size as int,
                    ),
                old_model == old(self).model,
                forall|u: u64|
                    u < self.num_units ==> #[trigger] old_model.allows(
                        u,
                        slot(left, u as int, self.unit_size as int),
                    ),
                forall|u: u64|
                    u < unit ==> (#[trigger] self.model.versions(u)).len() == 0
                        && self.model.durable_value(u) == slot(
                        left,
                        u as int,
                        self.unit_size as int,
                    ),
                forall|u: u64|
                    u < self.num_units ==> #[trigger] self.model.allows(
                        u,
                        slot(left, u as int, self.unit_size as int),
                    ),
            decreases self.num_units - unit,
        {
            proof {
                lemma_units_apart(
                    unit as int,
                    unit as int,
                    self.num_units as int,
                    self.unit_size as int,
                );
            }
            let offset: u64 = unit * (self.unit_size as u64);
            let actual = match self.backing.read_at(&file, offset, self.unit_size) {
                Ok(bytes) => bytes,
                Err(_) => Vec::new(),
            };
            let ghost held = self.model;
            assert(actual@ == slot(left, unit as int, self.unit_size as int));
            assert(self.model.allows(unit, slot(left, unit as int, self.unit_size as int)));
            match self.model.crash_adopt(unit, actual.as_slice()) {
                Ok(()) => {},
                Err(violation) => return Err(violation),
            }
            proof {
                let model = &self.model;
                assert forall|u: u64| u < unit + 1 implies #[trigger] model.current(u) == slot(
                    left,
                    u as int,
                    self.unit_size as int,
                ) by {
                    if u != unit {
                        assert(model.versions(u) == held.versions(u));
                        assert(held.current(u) == slot(left, u as int, self.unit_size as int));
                    } else {
                        assert(model.versions(u).len() == 0);
                    }
                }
                assert forall|u: u64| u < self.num_units implies #[trigger] model.allows(
                    u,
                    slot(left, u as int, self.unit_size as int),
                ) by {
                    assert(held.allows(u, slot(left, u as int, self.unit_size as int)));
                    if u != unit {
                        assert(model.versions(u) == held.versions(u));
                        assert(model.durable_value(u) == held.durable_value(u));
                    }
                }
                assert forall|u: u64|
                    #![trigger model.durable_value(u)]
                    #![trigger model.versions(u)]
                    model.durable_value(u).len() == model.size() && forall|i: int|
                        0 <= i < model.versions(u).len() ==> (#[trigger] model.versions(u)[i]).len()
                            == model.size() by {
                    assert(held.durable_value(u).len() == held.size());
                    if u != unit {
                        assert(model.versions(u) == held.versions(u));
                    }
                }
            }
            unit += 1;
        }
        proof {
            lemma_settled_tracks(&self.model, left);
            assert(self.seen() == left);
            assert forall|u: u64| #![trigger self.model.durable_value(u)]
                u < self.num_units implies {
                &&& self.model.durable_value(u) == slot(left, u as int, self.unit_size as int)
                &&& self.model.versions(u).len() == 0
                &&& old_model.allows(u, self.model.durable_value(u))
            } by {
                assert(self.model.versions(u).len() == 0);
                assert(old_model.allows(u, slot(left, u as int, self.unit_size as int)));
            }
        }
        Ok(())
    }
}

proof fn lemma_single(names: Seq<Seq<char>>, name: Seq<char>)
    requires
        names.no_duplicates(),
        forall|n: Seq<char>| #[trigger] names.contains(n) <==> n == name,
    ensures
        names == seq![name],
{
    assert(names.contains(name));
    let k = choose|k: int| 0 <= k < names.len() && names[k] == name;
    if names.len() > 1 {
        let other: int = if k == 0 {
            1
        } else {
            0
        };
        assert(names.contains(names[other]));
    }
    assert(names =~= seq![name]);
}

proof fn lemma_flushed(old_model: &ReferenceBlockModel, model: &ReferenceBlockModel, data: Seq<u8>)
    requires
        sized(old_model),
        model.same_geometry(old_model),
        data.len() == model.units() * model.size(),
        agrees(old_model, data),
        forall|u: u64|
            #![trigger model.durable_value(u)]
            #![trigger model.versions(u)]
            model.durable_value(u) == old_model.current(u) && model.versions(u).len() == 0,
    ensures
        tracks(model, Some(crate::crash_backing::settled(data))),
{
    assert forall|u: u64| u < model.units() implies #[trigger] model.current(u) == slot(
        data,
        u as int,
        model.size() as int,
    ) by {
        assert(model.versions(u).len() == 0);
        assert(old_model.current(u) == slot(data, u as int, model.size() as int));
    }
    assert forall|u: u64|
        #![trigger model.durable_value(u)]
        #![trigger model.versions(u)]
        model.durable_value(u).len() == model.size() && forall|i: int|
            0 <= i < model.versions(u).len() ==> (#[trigger] model.versions(u)[i]).len()
                == model.size() by {
        assert(old_model.durable_value(u).len() == old_model.size());
        let versions = old_model.versions(u);
        if versions.len() > 0 {
            assert(versions[versions.len() - 1].len() == old_model.size());
        }
    }
    lemma_settled_tracks(model, data);
}

proof fn lemma_no_units(
    model: &ReferenceBlockModel,
    durable: Seq<u8>,
    pending: Seq<crate::crash_backing::Change>,
    fates: Seq<crate::crash_backing::OpFate>,
)
    requires
        within(model, durable, pending),
        model.units() == 0,
    ensures
        crate::crash_backing::survivors(durable, pending, None, fates).len() == durable.len(),
{
    if pending.len() > 0 {
        assert(writes_some_unit(pending[0], model.units(), model.size() as int));
        let u = choose|u: u64|
            u < model.units() && #[trigger] writes_unit(
                pending[0],
                u as int,
                model.size() as int,
            );
        assert(false);
    }
}

impl Run {
    /// Draw one operation, carry it out, and sometimes look at a unit: what the
    /// store shows is what the model says.
    pub fn step(&mut self, rng: &mut rand::rngs::StdRng, stamp: u8) -> (r: Result<
        u8,
        OracleViolation,
    >)
        requires
            old(self).wf(),
            old(self).num_units > 0,
            old(self).backing.writes() < usize::MAX,
        ensures
            r is Ok,
            final(self).wf(),
            final(self).same_shape(old(self)),
            final(self).backing.writes() <= old(self).backing.writes() + 1,
            final(self).tape(r->Ok_0, crate::chance::std_words(*final(rng))) == played(
                old(self).tape(stamp, crate::chance::std_words(*old(rng))),
                old(self).num_units,
                old(self).unit_size,
                1,
            ),
    {
        let ghost start = self.tape(stamp, crate::chance::std_words(*rng));
        proof {
            reveal_with_fuel(played, 2);
        }
        let mut last: u8 = stamp;
        match kind_of(below_u32(rng, 100)) {
            OpKind::Write => {
                let unit: u64 = below_u64(rng, self.num_units);
                last = next_stamp(stamp);
                let data = unit_data(last, self.unit_size);
                self.write(unit, data.as_slice());
            },
            OpKind::WriteFua => {
                let unit: u64 = below_u64(rng, self.num_units);
                last = next_stamp(stamp);
                let data = unit_data(last, self.unit_size);
                self.write_fua(unit, data.as_slice());
            },
            OpKind::Flush => self.flush(),
            OpKind::Crash => match self.crash(rng) {
                Ok(()) => {},
                Err(violation) => return Err(violation),
            },
        }
        assert(self.tape(last, crate::chance::std_words(*rng)) == acted(
            start,
            self.num_units,
            self.unit_size,
        ));
        if chance(rng, 1, 4) {
            let unit: u64 = below_u64(rng, self.num_units);
            let actual = self.read_unit(unit);
            let expected = self.model.read(unit);
            if !same_bytes(actual.as_slice(), expected.as_slice()) {
                let mut detail = crate::text::join3(
                    "live view mismatch: got first-byte ",
                    show_optional_byte(actual.as_slice()).as_str(),
                    ", expected ",
                );
                detail.append(show_optional_byte(expected.as_slice()).as_str());
                return Err(OracleViolation { unit, detail });
            }
        }
        Ok(last)
    }
}

/// Play one random sequence and hand the run back. Which operations it plays,
/// and what every crash leaves, follows from the words of the generator.
pub fn play_sequence(seed: u64, cfg: &SequenceConfig) -> (r: Result<Run, OracleViolation>)
    requires
        cfg.num_units * cfg.unit_size <= usize::MAX,
        cfg.num_units > 0 || cfg.ops == 0,
    ensures
        r matches Ok(run) && {
            &&& run.wf()
            &&& run.num_units == cfg.num_units
            &&& run.unit_size == cfg.unit_size
            &&& run.backing.file("data"@) == Some(
                played(
                    sequence_begun(seed, cfg.num_units, cfg.unit_size),
                    cfg.num_units,
                    cfg.unit_size,
                    cfg.ops as nat,
                ).file,
            )
        },
{
    let mut rng = seeded(seed.wrapping_mul(0x9E37_79B9_7F4A_7C15).wrapping_add(1));
    let mut run = Run::start(cfg.num_units, cfg.unit_size);
    let ghost begun = sequence_begun(seed, cfg.num_units, cfg.unit_size);
    let mut stamp: u8 = 0;
    let mut i: usize = 0;
    while i < cfg.ops
        invariant
            i <= cfg.ops,
            cfg.num_units > 0 || cfg.ops == 0,
            run.wf(),
            run.num_units == cfg.num_units,
            run.unit_size == cfg.unit_size,
            run.backing.writes() <= i,
            run.tape(stamp, crate::chance::std_words(rng)) == played(
                begun,
                cfg.num_units,
                cfg.unit_size,
                i as nat,
            ),
        decreases cfg.ops - i,
    {
        proof {
            reveal_with_fuel(played, 2);
        }
        stamp = match run.step(&mut rng, stamp) {
            Ok(stamp) => stamp,
            Err(violation) => return Err(violation),
        };
        i += 1;
    }
    let mut unit: u64 = 0;
    while unit < cfg.num_units
        invariant
            unit <= cfg.num_units,
            run.wf(),
            run.num_units == cfg.num_units,
        decreases cfg.num_units - unit,
    {
        let actual = run.read_unit(unit);
        let expected = run.model.read(unit);
        if !same_bytes(actual.as_slice(), expected.as_slice()) {
            return Err(
                OracleViolation { unit, detail: "final live view mismatch".to_owned() },
            );
        }
        unit += 1;
    }
    Ok(run)
}

/// Run one random sequence; an error is a violation of the durability contract.
/// There never is one: whatever the seed draws, every observation of the store
/// is what the model allows.
pub fn run_random_sequence(seed: u64, cfg: &SequenceConfig) -> (r: Result<(), OracleViolation>)
    requires
        cfg.num_units * cfg.unit_size <= usize::MAX,
        cfg.num_units > 0 || cfg.ops == 0,
    ensures
        r is Ok,
{
    match play_sequence(seed, cfg) {
        Ok(_) => Ok(()),
        Err(violation) => Err(violation),
    }
}

/// Of a hundred equal chances fifty are a write, fifteen a write through, fifteen
/// a flush and twenty a crash.
pub proof fn operations_have_their_shares(draw: nat)
    requires
        draw < 100,
    ensures
        kind_drawn(draw) is Write <==> draw < 50,
        kind_drawn(draw) is WriteFua <==> 50 <= draw < 65,
        kind_drawn(draw) is Flush <==> 65 <= draw < 80,
        kind_drawn(draw) is Crash <==> 80 <= draw < 100,
{
}

/// Stamps count upwards and begin anew behind the last one, without the zero of
/// a unit that was never written.
pub proof fn stamps_are_never_zero(stamp: u8)
    ensures
        stamp_after(stamp) != 0,
        stamp_after(stamp) != stamp,
        stamp < 255 ==> stamp_after(stamp) == stamp + 1,
        stamp == 255 ==> stamp_after(stamp) == 1,
{
}

/// What each drawn operation does: a write waits behind the pending ones, with
/// the next stamp all over the drawn unit; a write through and a flush leave
/// nothing pending; a crash draws its fate.
pub proof fn drawn_operations_act_on_the_file(t: Tape, units: u64, size: usize)
    requires
        t.file.volatile is Some,
    ensures
        ({
            let (draw, rest) = crate::chance::range_drawn(t.words, 100);
            let (unit, after) = crate::chance::wide_range_drawn(rest, units as nat);
            let next = acted(t, units, size);
            let seen = crate::crash_backing::content(t.file)->0;
            let data = Seq::new(size as nat, |i: int| stamp_after(t.stamp));
            &&& draw < 50 ==> {
                &&& next.stamp == stamp_after(t.stamp)
                &&& next.words == after
                &&& next.file.durable == t.file.durable
                &&& next.file.volatile->0.pending == t.file.volatile->0.pending.push(
                    crate::crash_backing::Change::Write { offset: unit * size as nat, data },
                )
            }
            &&& 50 <= draw < 65 ==> {
                &&& next.stamp == stamp_after(t.stamp)
                &&& next.words == after
                &&& next.file.durable == Some(
                    crate::crash_backing::overwritten(seen, unit * size as nat, data),
                )
                &&& next.file.volatile->0.pending.len() == 0
            }
            &&& 65 <= draw < 80 ==> {
                &&& next.stamp == t.stamp
                &&& next.words == rest
                &&& next.file.durable == Some(seen)
                &&& next.file.volatile->0.pending.len() == 0
            }
            &&& 80 <= draw < 100 ==> {
                let (fate, left) = crate::crash_backing::fate_drawn(t.file, None, rest);
                &&& next.stamp == t.stamp
                &&& next.words == left
                &&& next.file == crate::crash_backing::after_crash(t.file, None, fate)->0
            }
        }),
{
}

/// One look in four is taken, and only a look draws the unit to look at.
pub proof fn looks_are_drawn_one_in_four(words: Map<nat, u32>, units: u64)
    ensures
        ({
            let (look, rest) = crate::chance::ratio_drawn(words, 1, 4);
            &&& look ==> glanced(words, units) == crate::chance::wide_range_drawn(
                rest,
                units as nat,
            ).1
            &&& !look ==> glanced(words, units) == rest
        }),
{
}

/// A sequence begins with a durable store of zeros and nothing pending.
pub proof fn sequences_begin_with_zeros(seed: u64, units: u64, size: usize)
    ensures
        ({
            let t = sequence_begun(seed, units, size);
            &&& t.stamp == 0
            &&& t.file.durable matches Some(bytes) && bytes.len() == units * size && forall|i: int|
                0 <= i < bytes.len() ==> #[trigger] bytes[i] == 0
            &&& t.file.volatile matches Some(v) && v.pending.len() == 0
            &&& t.file.dirent_durable
        }),
{
    assert(units * size >= 0) by (nonlinear_arith);
}

/// A sequence plays one operation after the other, each followed by a look.
pub proof fn operations_follow_each_other(t: Tape, units: u64, size: usize, n: nat)
    ensures
        played(t, units, size, 0) == t,
        ({
            let next = acted(played(t, units, size, n), units, size);
            &&& played(t, units, size, n + 1).file == next.file
            &&& played(t, units, size, n + 1).stamp == next.stamp
            &&& played(t, units, size, n + 1).words == glanced(next.words, units)
        }),
{
}

} // verus!
