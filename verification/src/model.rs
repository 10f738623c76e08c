//! The reference model of a crash-consistent block store, at the granularity
//! of one unit. It captures the weakest contract that a store may offer:
//!
//! - a unit that was never written is zeros,
//! - an acknowledged write that was not flushed may surface after a crash as
//!   the new value, as any earlier acknowledged and unflushed value, or as the
//!   last durable value,
//! - after a flush, everything acknowledged before it is durable,
//! - a write with forced unit access is durable,
//! - nothing else may ever appear.

use std::collections::HashMap;
use vstd::prelude::*;

use crate::text::{join3, join5, show};

verus! {

broadcast use {vstd::seq::group_seq_axioms, vstd::std_specs::hash::group_hash_axioms};

/// Observed content that the model does not allow.
#[derive(Debug)]
pub struct OracleViolation {
    pub unit: u64,
    pub detail: String,
}

impl OracleViolation {
    pub fn to_string(&self) -> (r: String)
        ensures
            r@ == "durability oracle violation at unit "@ + crate::text::decimal(self.unit as nat)
                + ": "@ + self.detail@,
    {
        let mut out = join3(
            "durability oracle violation at unit ",
            show(self.unit).as_str(),
            ": ",
        );
        out.append(self.detail.as_str());
        out
    }
}

/// The model: what is durable, and what was acknowledged since.
pub struct ReferenceBlockModel {
    unit_size: usize,
    num_units: u64,
    /// Durable content per unit; absent = zeros.
    durable: HashMap<u64, Vec<u8>>,
    /// Acknowledged but unflushed versions per unit, oldest first.
    pending: HashMap<u64, Vec<Vec<u8>>>,
}

/// `n` zero bytes.
pub open spec fn zeros(n: nat) -> Seq<u8> {
    Seq::new(n, |i: int| 0u8)
}

/// The bytes behind a list of byte strings.
pub open spec fn contents(v: Seq<Vec<u8>>) -> Seq<Seq<u8>> {
    v.map_values(|b: Vec<u8>| b@)
}

/// The durable value followed by each version that does not repeat an earlier
/// one.
pub open spec fn allowed_values(durable: Seq<u8>, versions: Seq<Seq<u8>>) -> Seq<Seq<u8>>
    decreases versions.len(),
{
    if versions.len() == 0 {
        seq![durable]
    } else {
        let earlier = allowed_values(durable, versions.drop_last());
        if earlier.contains(versions.last()) {
            earlier
        } else {
            earlier.push(versions.last())
        }
    }
}

/// Two hexadecimal digits of a byte.
pub open spec fn hex_byte(b: u8) -> Seq<char> {
    seq![hex_char((b / 16) as int), hex_char((b % 16) as int)]
}

/// The hexadecimal digit that stands for `d`.
pub open spec fn hex_char(d: int) -> char {
    if d < 10 {
        crate::text::digit_char(d)
    } else if d == 10 {
        'a'
    } else if d == 11 {
        'b'
    } else if d == 12 {
        'c'
    } else if d == 13 {
        'd'
    } else if d == 14 {
        'e'
    } else {
        'f'
    }
}

/// The first eight bytes in hexadecimal, as a list.
pub open spec fn hex_prefix(bytes: Seq<u8>) -> Seq<char> {
    let n = if bytes.len() < 8 {
        bytes.len() as int
    } else {
        8
    };
    "["@ + crate::text::joined(bytes.take(n).map_values(|b: u8| hex_byte(b)), ", "@) + "]"@
}

/// The rendered form of an optional byte.
pub open spec fn optional_byte(bytes: Seq<u8>) -> Seq<char> {
    if bytes.len() > 0 {
        "Some("@ + crate::text::decimal(bytes[0] as nat) + ")"@
    } else {
        "None"@
    }
}

/// A short description of a byte string.
pub open spec fn summary(bytes: Seq<u8>) -> Seq<char> {
    "["@ + crate::text::decimal(bytes.len()) + " bytes, first="@ + optional_byte(bytes) + "]"@
}

pub(crate) fn hex_digit(d: u8) -> (r: char)
    requires
        d < 16,
    ensures
        r == hex_char(d as int),
{
    if d == 0 {
        '0'
    } else if d == 1 {
        '1'
    } else if d == 2 {
        '2'
    } else if d == 3 {
        '3'
    } else if d == 4 {
        '4'
    } else if d == 5 {
        '5'
    } else if d == 6 {
        '6'
    } else if d == 7 {
        '7'
    } else if d == 8 {
        '8'
    } else if d == 9 {
        '9'
    } else if d == 10 {
        'a'
    } else if d == 11 {
        'b'
    } else if d == 12 {
        'c'
    } else if d == 13 {
        'd'
    } else if d == 14 {
        'e'
    } else {
        'f'
    }
}

fn show_hex_prefix(bytes: &[u8]) -> (r: String)
    ensures
        r@ == hex_prefix(bytes@),
{
    let n: usize = if bytes.len() < 8 {
        bytes.len()
    } else {
        8
    };
    let mut parts: Vec<String> = Vec::new();
    let mut i: usize = 0;
    while i < n
        invariant
            i <= n <= bytes.len(),
            parts.len() == i,
            forall|k: int| 0 <= k < i ==> #[trigger] parts@[k]@ == hex_byte(bytes@[k]),
        decreases n - i,
    {
        let mut s = String::new();
        s.push(hex_digit(bytes[i] / 16));
        s.push(hex_digit(bytes[i] % 16));
        assert(s@ =~= hex_byte(bytes@[i as int]));
        parts.push(s);
        i += 1;
    }
    assert(crate::text::strings(parts@) =~= bytes@.take(n as int).map_values(|b: u8| hex_byte(b)));
    join3("[", crate::text::join(&parts, ", ").as_str(), "]")
}

pub(crate) fn show_optional_byte(bytes: &[u8]) -> (r: String)
    ensures
        r@ == optional_byte(bytes@),
{
    if bytes.len() > 0 {
        join3("Some(", show(bytes[0] as u64).as_str(), ")")
    } else {
        "None".to_owned()
    }
}

fn summarize(bytes: &[u8]) -> (r: String)
    ensures
        r@ == summary(bytes@),
{
    join5(
        "[",
        show(bytes.len() as u64).as_str(),
        " bytes, first=",
        show_optional_byte(bytes).as_str(),
        "]",
    )
}

pub(crate) fn same_bytes(a: &[u8], b: &[u8]) -> (r: bool)
    ensures
        r == (a@ == b@),
{
    if a.len() != b.len() {
        return false;
    }
    let mut i: usize = 0;
    while i < a.len()
        invariant
            i <= a.len(),
            a.len() == b.len(),
            forall|k: int| 0 <= k < i ==> a@[k] == b@[k],
        decreases a.len() - i,
    {
        if a[i] != b[i] {
            return false;
        }
        i += 1;
    }
    assert(a@ =~= b@);
    true
}

pub(crate) fn copy_bytes(a: &[u8]) -> (r: Vec<u8>)
    ensures
        r@ == a@,
{
    let mut out: Vec<u8> = Vec::new();
    let mut i: usize = 0;
    while i < a.len()
        invariant
            i <= a.len(),
            out@ == a@.take(i as int),
        decreases a.len() - i,
    {
        out.push(a[i]);
        i += 1;
    }
    assert(out@ =~= a@);
    out
}

pub(crate) fn zero_bytes(n: usize) -> (r: Vec<u8>)
    ensures
        r@ == zeros(n as nat),
{
    let mut out: Vec<u8> = Vec::new();
    let mut i: usize = 0;
    while i < n
        invariant
            i <= n,
            out@ == zeros(i as nat),
        decreases n - i,
    {
        out.push(0);
        assert(out@ =~= zeros((i + 1) as nat));
        i += 1;
    }
    out
}

fn copy_list(v: &Vec<Vec<u8>>) -> (r: Vec<Vec<u8>>)
    ensures
        contents(r@) == contents(v@),
{
    let mut out: Vec<Vec<u8>> = Vec::new();
    let mut i: usize = 0;
    while i < v.len()
        invariant
            i <= v.len(),
            out.len() == i,
            forall|k: int| 0 <= k < i ==> #[trigger] out@[k]@ == v@[k]@,
        decreases v.len() - i,
    {
        out.push(copy_bytes(v[i].as_slice()));
        i += 1;
    }
    assert(contents(out@) =~= contents(v@));
    out
}

fn holds_bytes(v: &Vec<Vec<u8>>, bytes: &[u8]) -> (r: bool)
    ensures
        r == contents(v@).contains(bytes@),
{
    let mut i: usize = 0;
    while i < v.len()
        invariant
            i <= v.len(),
            forall|k: int| 0 <= k < i ==> #[trigger] v@[k]@ != bytes@,
        decreases v.len() - i,
    {
        if same_bytes(v[i].as_slice(), bytes) {
            assert(contents(v@)[i as int] == bytes@);
            return true;
        }
        i += 1;
    }
    assert forall|k: int| 0 <= k < contents(v@).len() implies contents(v@)[k] != bytes@ by {
        assert(contents(v@)[k] == v@[k]@);
    }
    false
}

impl ReferenceBlockModel {
    /// The size of a unit.
    pub closed spec fn size(&self) -> nat {
        self.unit_size as nat
    }

    /// The number of units.
    pub closed spec fn units(&self) -> nat {
        self.num_units as nat
    }

    /// The last durable value of a unit.
    pub closed spec fn durable_value(&self, unit: u64) -> Seq<u8> {
        if self.durable@.contains_key(unit) {
            self.durable@[unit]@
        } else {
            zeros(self.size())
        }
    }

    /// The acknowledged and unflushed versions of a unit, oldest first.
    pub closed spec fn versions(&self, unit: u64) -> Seq<Seq<u8>> {
        if self.pending@.contains_key(unit) {
            contents(self.pending@[unit]@)
        } else {
            Seq::empty()
        }
    }

    /// What a read returns while nothing crashes.
    pub open spec fn current(&self, unit: u64) -> Seq<u8> {
        if self.versions(unit).len() > 0 {
            self.versions(unit).last()
        } else {
            self.durable_value(unit)
        }
    }

    /// A value that a crash may leave in the unit.
    pub open spec fn allows(&self, unit: u64, value: Seq<u8>) -> bool {
        value == self.durable_value(unit) || self.versions(unit).contains(value)
    }

    /// The two models have the same geometry.
    pub open spec fn same_geometry(&self, other: &Self) -> bool {
        self.size() == other.size() && self.units() == other.units()
    }

    /// The two models say the same about every unit but `unit`.
    pub open spec fn same_elsewhere(&self, other: &Self, unit: u64) -> bool {
        forall|u: u64| #![trigger self.durable_value(u)] #![trigger self.versions(u)]
            u != unit ==> self.durable_value(u) == other.durable_value(u) && self.versions(u)
                == other.versions(u)
    }

    pub fn new(unit_size: usize, num_units: u64) -> (r: Self)
        ensures
            r.size() == unit_size,
            r.units() == num_units,
            forall|u: u64|
                #![trigger r.durable_value(u)]
                #![trigger r.versions(u)]
                r.durable_value(u) == zeros(unit_size as nat) && r.versions(u).len() == 0,
    {
        ReferenceBlockModel {
            unit_size,
            num_units,
            durable: HashMap::new(),
            pending: HashMap::new(),
        }
    }

    pub fn unit_size(&self) -> (r: usize)
        ensures
            r == self.size(),
    {
        self.unit_size
    }

    pub fn num_units(&self) -> (r: u64)
        ensures
            r == self.units(),
    {
        self.num_units
    }

    /// Acknowledge a normal write (volatile until the next flush).
    pub fn write(&mut self, unit: u64, data: &[u8])
        requires
            unit < old(self).units(),
            data@.len() == old(self).size(),
        ensures
            final(self).same_geometry(old(self)),
            final(self).versions(unit) == old(self).versions(unit).push(data@),
            final(self).durable_value(unit) == old(self).durable_value(unit),
            final(self).same_elsewhere(old(self), unit),
    {
        let mut versions = match self.pending.get(&unit) {
            Some(list) => copy_list(list),
            None => Vec::new(),
        };
        let ghost before = self.versions(unit);
        assert(contents(versions@) =~= before);
        let ghost held = versions@;
        versions.push(copy_bytes(data));
        assert(contents(versions@) =~= contents(held).push(data@));
        self.pending.insert(unit, versions);
    }

    /// Acknowledge a write with forced unit access: durable immediately.
    pub fn write_fua(&mut self, unit: u64, data: &[u8])
        requires
            unit < old(self).units(),
            data@.len() == old(self).size(),
        ensures
            final(self).same_geometry(old(self)),
            final(self).durable_value(unit) == data@,
            final(self).versions(unit).len() == 0,
            final(self).same_elsewhere(old(self), unit),
    {
        self.durable.insert(unit, copy_bytes(data));
        self.pending.remove(&unit);
    }

    /// Acknowledge a flush: every acknowledged write becomes durable.
    pub fn flush(&mut self)
        ensures
            final(self).same_geometry(old(self)),
            forall|u: u64|
                #![trigger final(self).durable_value(u)]
                #![trigger final(self).versions(u)]
                final(self).durable_value(u) == old(self).current(u) && final(self).versions(
                    u,
                ).len() == 0,
    {
        let mut pending: HashMap<u64, Vec<Vec<u8>>> = HashMap::new();
        std::mem::swap(&mut pending, &mut self.pending);
        let mut units: Vec<u64> = Vec::new();
        for unit in it: pending.keys()
            invariant
                units@.len() == it.index(),
                forall|k: int| 0 <= k < units@.len() ==> units@[k] == *it.seq()[k],
        {
            units.push(*unit);
        }
        assert forall|u: u64| pending@.contains_key(u) implies units@.contains(u) by {
            let seen = vstd::std_specs::hash::spec_keys_iter(&pending);
            let keys = vstd::std_specs::iter::IteratorSpec::remaining(&seen);
            assert(keys.unref().to_set().contains(u));
            let k = keys.unref().index_of(u);
            assert(units@[k] == u);
        }
        let ghost start = *self;
        let ghost first = *old(self);
        let mut i: usize = 0;
        while i < units.len()
            invariant
                i <= units.len(),
                start.durable@ == first.durable@,
                start.unit_size == first.unit_size,
                start.num_units == first.num_units,
                self.unit_size == first.unit_size,
                self.num_units == first.num_units,
                self.pending@ == start.pending@,
                pending@ == first.pending@,
                forall|u: u64|
                    #![trigger self.durable@.contains_key(u)]
                    (exists|k: int| 0 <= k < i && units@[k] == u) ==> self.durable_value(u)
                        == first.current(u),
                forall|u: u64|
                    #![trigger self.durable@.contains_key(u)]
                    !(exists|k: int| 0 <= k < i && units@[k] == u) ==> self.durable_value(u)
                        == first.durable_value(u),
            decreases units.len() - i,
        {
            let unit: u64 = units[i];
            let ghost before = *self;
            match pending.get(&unit) {
                Some(versions) => {
                    if versions.len() > 0 {
                        let last = copy_bytes(versions[versions.len() - 1].as_slice());
                        assert(first.versions(unit).last() == last@);
                        self.durable.insert(unit, last);
                    }
                },
                None => {},
            }
            proof {
                assert forall|u: u64|
                    #![trigger self.durable@.contains_key(u)]
                    (exists|k: int| 0 <= k < i + 1 && units@[k] == u) implies self.durable_value(u)
                    == first.current(u) by {
                    assert(before.durable@.contains_key(u) || !before.durable@.contains_key(u));
                    if u != unit {
                        let k = choose|k: int| 0 <= k < i + 1 && units@[k] == u;
                        assert(0 <= k < i && units@[k] == u);
                    }
                }
                assert forall|u: u64|
                    #![trigger self.durable@.contains_key(u)]
                    !(exists|k: int| 0 <= k < i + 1 && units@[k] == u) implies self.durable_value(u)
                    == first.durable_value(u) by {
                    assert(before.durable@.contains_key(u) || !before.durable@.contains_key(u));
                    assert(units@[i as int] == unit);
                    if exists|k: int| 0 <= k < i && units@[k] == u {
                        let k = choose|k: int| 0 <= k < i && units@[k] == u;
                        assert(0 <= k < i + 1 && units@[k] == u);
                    }
                }
            }
            i += 1;
        }
        proof {
            assert forall|u: u64|
                #![trigger self.durable_value(u)]
                #![trigger self.versions(u)]
                self.durable_value(u) == first.current(u) && self.versions(u).len() == 0 by {
                assert(self.durable@.contains_key(u) || !self.durable@.contains_key(u));
                if pending@.contains_key(u) {
                    let k = units@.index_of(u);
                    assert(0 <= k < i && units@[k] == u);
                } else {
                    assert(first.versions(u).len() == 0);
                }
            }
        }
    }

    /// The view of a unit while nothing crashes.
    pub fn read(&self, unit: u64) -> (r: Vec<u8>)
        requires
            unit < self.units(),
        ensures
            r@ == self.current(unit),
    {
        match self.pending.get(&unit) {
            Some(versions) => {
                if versions.len() > 0 {
                    return copy_bytes(versions[versions.len() - 1].as_slice());
                }
            },
            None => {},
        }
        self.read_durable(unit)
    }

    fn read_durable(&self, unit: u64) -> (r: Vec<u8>)
        ensures
            r@ == self.durable_value(unit),
    {
        match self.durable.get(&unit) {
            Some(data) => copy_bytes(data.as_slice()),
            None => zero_bytes(self.unit_size),
        }
    }

    /// All values this unit may hold immediately after a crash: the durable one
    /// first, then the versions in order, each once.
    pub fn allowed_after_crash(&self, unit: u64) -> (r: Vec<Vec<u8>>)
        ensures
            contents(r@) == allowed_values(self.durable_value(unit), self.versions(unit)),
    {
        let mut out: Vec<Vec<u8>> = Vec::new();
        out.push(self.read_durable(unit));
        assert(contents(out@) =~= seq![self.durable_value(unit)]);
        match self.pending.get(&unit) {
            Some(versions) => {
                let ghost all = self.versions(unit);
                assert(all =~= contents(versions@));
                let mut i: usize = 0;
                assert(all.take(0) =~= Seq::<Seq<u8>>::empty());
                while i < versions.len()
                    invariant
                        i <= versions.len(),
                        all == contents(versions@),
                        contents(out@) == allowed_values(
                            self.durable_value(unit),
                            all.take(i as int),
                        ),
                    decreases versions.len() - i,
                {
                    proof {
                        assert(all.take(i + 1).drop_last() =~= all.take(i as int));
                        assert(all.take(i + 1).last() == versions@[i as int]@);
                    }
                    if !holds_bytes(&out, versions[i].as_slice()) {
                        let ghost before = out@;
                        out.push(copy_bytes(versions[i].as_slice()));
                        assert(contents(out@) =~= contents(before).push(versions@[i as int]@));
                    }
                    i += 1;
                }
                assert(all.take(i as int) =~= all);
            },
            None => {},
        }
        out
    }

    /// Check the observed post-crash content of `unit` against the allowed
    /// set, then adopt it as the new durable state.
    pub fn crash_adopt(&mut self, unit: u64, actual: &[u8]) -> (r: Result<(), OracleViolation>)
        ensures
            r is Ok <==> old(self).allows(unit, actual@),
            r is Ok ==> {
                &&& final(self).same_geometry(old(self))
                &&& final(self).durable_value(unit) == actual@
                &&& final(self).versions(unit).len() == 0
                &&& final(self).same_elsewhere(old(self), unit)
            },
            r matches Err(violation) ==> {
                &&& *final(self) == *old(self)
                &&& violation.unit == unit
                &&& violation.detail@ == "observed "@ + summary(actual@) + " not in "@
                    + crate::text::decimal(
                    allowed_values(
                        old(self).durable_value(unit),
                        old(self).versions(unit),
                    ).len(),
                ) + " allowed value(s); observed-prefix="@ + hex_prefix(actual@)
            },
    {
        let allowed = self.allowed_after_crash(unit);
        proof {
            crash_allows_the_durable_value_and_each_version(self, unit, actual@);
            assert(contents(allowed@).len() == allowed@.len());
        }
        if !holds_bytes(&allowed, actual) {
            let mut detail = join5(
                "observed ",
                summarize(actual).as_str(),
                " not in ",
                show(allowed.len() as u64).as_str(),
                " allowed value(s); observed-prefix=",
            );
            detail.append(show_hex_prefix(actual).as_str());
            return Err(OracleViolation { unit, detail });
        }
        self.durable.insert(unit, copy_bytes(actual));
        self.pending.remove(&unit);
        Ok(())
    }
}

// ---------- laws ----------

proof fn lemma_allowed(durable: Seq<u8>, versions: Seq<Seq<u8>>, value: Seq<u8>)
    ensures
        allowed_values(durable, versions).contains(value) <==> value == durable
            || versions.contains(value),
    decreases versions.len(),
{
    let all = allowed_values(durable, versions);
    if versions.len() == 0 {
        assert(all[0] == durable);
    } else {
        let last = versions.last();
        let init = versions.drop_last();
        let earlier = allowed_values(durable, init);
        lemma_allowed(durable, init, value);
        lemma_allowed(durable, init, last);
        assert(versions[versions.len() - 1] == last);
        if init.contains(value) {
            assert(versions[init.index_of(value)] == value);
        }
        if versions.contains(value) && value != last {
            assert(init[versions.index_of(value)] == value);
        }
        if !earlier.contains(last) {
            if earlier.contains(value) {
                assert(all[earlier.index_of(value)] == value);
            }
            assert(all[all.len() - 1] == last);
            if all.contains(value) && value != last {
                assert(earlier[all.index_of(value)] == value);
            }
        }
    }
}

/// The listed values are exactly the durable value and the versions: nothing
/// else may ever appear.
pub proof fn crash_allows_the_durable_value_and_each_version(
    model: &ReferenceBlockModel,
    unit: u64,
    value: Seq<u8>,
)
    ensures
        allowed_values(model.durable_value(unit), model.versions(unit)).contains(value)
            <==> model.allows(unit, value),
{
    lemma_allowed(model.durable_value(unit), model.versions(unit), value);
}

/// What a read returns is always among the values a crash may leave.
pub proof fn current_value_may_survive(model: &ReferenceBlockModel, unit: u64)
    ensures
        model.allows(unit, model.current(unit)),
{
    let versions = model.versions(unit);
    if versions.len() > 0 {
        assert(versions[versions.len() - 1] == model.current(unit));
    }
}

/// Once a unit has no unflushed version, as after a flush or a write with
/// forced unit access, a crash can leave nothing but what a read returned.
pub proof fn settled_units_survive_unchanged(model: &ReferenceBlockModel, unit: u64, value: Seq<u8>)
    requires
        model.versions(unit).len() == 0,
        model.allows(unit, value),
    ensures
        value == model.current(unit),
{
}

/// Hexadecimal digits are the decimal digits and the letters from `a` to `f`;
/// two of them tell their byte.
pub proof fn bytes_are_told_by_two_digits(a: u8, b: u8)
    ensures
        hex_byte(a).len() == 2,
        hex_byte(a) == hex_byte(b) ==> a == b,
        forall|d: int|
            0 <= d < 16 ==> #[trigger] hex_char(d) == if d < 10 {
                ('0' as int + d) as char
            } else {
                ('a' as int + d - 10) as char
            },
{
    assert forall|x: int, y: int|
        0 <= x < 16 && 0 <= y < 16 && hex_char(x) == hex_char(y) implies x == y by {}
    if hex_byte(a) == hex_byte(b) {
        assert(hex_byte(a)[0] == hex_byte(b)[0]);
        assert(hex_byte(a)[1] == hex_byte(b)[1]);
    }
}

/// Only the first eight bytes are shown.
pub proof fn eight_bytes_are_shown(front: Seq<u8>, more: Seq<u8>)
    ensures
        front.len() == 8 ==> hex_prefix(front + more) == hex_prefix(front),
        front.len() <= 8 ==> hex_prefix(front) == "["@ + crate::text::joined(
            front.map_values(|b: u8| hex_byte(b)),
            ", "@,
        ) + "]"@,
{
    if front.len() == 8 {
        assert((front + more).take(8) =~= front.take(8));
    }
    if front.len() <= 8 {
        assert(front.take(front.len() as int) =~= front);
    }
}

/// No value is allowed twice.
pub proof fn allowed_values_are_listed_once(durable: Seq<u8>, versions: Seq<Seq<u8>>)
    ensures
        allowed_values(durable, versions).no_duplicates(),
        allowed_values(durable, versions)[0] == durable,
        allowed_values(durable, versions).len() <= versions.len() + 1,
    decreases versions.len(),
{
    if versions.len() > 0 {
        allowed_values_are_listed_once(durable, versions.drop_last());
        let earlier = allowed_values(durable, versions.drop_last());
        let last = versions.last();
        if !earlier.contains(last) {
            assert forall|i: int, j: int|
                0 <= i < j < earlier.push(last).len() implies earlier.push(last)[i]
                != earlier.push(last)[j] by {
                if j == earlier.len() {
                    assert(earlier.contains(earlier[i]));
                }
            }
        }
    }
}

} // verus!
