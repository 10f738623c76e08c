//! A snapshot of the kernel's block-device tree: for every entry the texts of
//! the attributes that were read. An attribute that could not be read is
//! absent, and asking for it is an error of its own: absence is never taken
//! for an answer.

use vstd::prelude::*;

use crate::text::{parse_upto, same, split_once, strip_prefix, trim};

verus! {

broadcast use vstd::seq::group_seq_axioms;

/// One block device or partition.
#[derive(Debug)]
pub struct BlockEntry {
    pub name: String,
    /// `major:minor`.
    pub dev: Option<String>,
    /// The partition number, for a partition.
    pub partition: Option<String>,
    /// The length in sectors.
    pub size: Option<String>,
    /// The first sector, for a partition.
    pub start: Option<String>,
    /// What is built on it.
    pub holders: Option<Vec<String>>,
    /// What it is built on.
    pub slaves: Option<Vec<String>>,
    pub dm_name: Option<String>,
    pub dm_uuid: Option<String>,
    /// The name of the kernel device that it is a part of.
    pub parent: Option<String>,
    /// The number of the device node `/dev/<name>`, if that is a block device.
    pub node: Option<(u32, u32)>,
}

impl BlockEntry {
    /// An entry of which nothing was read.
    pub fn named(name: &str) -> (r: Self)
        ensures
            r.name@ == name@,
            r.dev is None,
            r.partition is None,
            r.size is None,
            r.start is None,
            r.holders is None,
            r.slaves is None,
            r.dm_name is None,
            r.dm_uuid is None,
            r.parent is None,
            r.node is None,
    {
        BlockEntry {
            name: name.to_owned(),
            dev: None,
            partition: None,
            size: None,
            start: None,
            holders: None,
            slaves: None,
            dm_name: None,
            dm_uuid: None,
            parent: None,
            node: None,
        }
    }
}

/// Every entry of the tree, each name once.
#[derive(Debug)]
pub struct BlockTree {
    pub entries: Vec<BlockEntry>,
    /// Some entry has a name that is not text.
    pub odd_names: bool,
}

/// Why a question to the tree has no usable answer.
#[derive(Debug, PartialEq, Eq)]
pub enum ProbeError {
    /// An attribute could not be read.
    Unreadable,
    /// What was read contradicts what must hold.
    Invalid(String),
}

/// The text of a [`ProbeError`].
pub enum Complaint {
    Unreadable,
    Invalid(Seq<char>),
}

impl View for ProbeError {
    type V = Complaint;

    open spec fn view(&self) -> Complaint {
        match *self {
            ProbeError::Unreadable => Complaint::Unreadable,
            ProbeError::Invalid(m) => Complaint::Invalid(m@),
        }
    }
}

/// The rendered form of a complaint.
pub open spec fn complaint_text(complaint: Complaint) -> Seq<char> {
    match complaint {
        Complaint::Unreadable => "kernel block attribute could not be read"@,
        Complaint::Invalid(m) => m,
    }
}

impl ProbeError {
    pub fn to_string(&self) -> (r: String)
        ensures
            r@ == complaint_text(self@),
    {
        match self {
            ProbeError::Unreadable => "kernel block attribute could not be read".to_owned(),
            ProbeError::Invalid(m) => m.clone(),
        }
    }
}

/// A contradiction.
pub fn invalid(message: &str) -> (r: ProbeError)
    ensures
        r@ == Complaint::Invalid(message@),
{
    ProbeError::Invalid(message.to_owned())
}

/// The outcome says what the model says.
pub open spec fn agrees<T>(r: Result<T, ProbeError>, s: Result<T, Complaint>) -> bool {
    match r {
        Ok(a) => s == Ok::<T, Complaint>(a),
        Err(e) => s == Err::<T, Complaint>(e@),
    }
}

/// The outcome of a check that raises the given complaint.
pub open spec fn passes(r: Result<(), ProbeError>, complaint: Option<Seq<char>>) -> bool {
    match r {
        Ok(()) => complaint is None,
        Err(ProbeError::Invalid(m)) => complaint == Some(m@),
        Err(ProbeError::Unreadable) => false,
    }
}

/// The complaint that was raised.
pub open spec fn says(r: Option<&'static str>, complaint: Option<Seq<char>>) -> bool {
    match r {
        Some(m) => complaint == Some(m@),
        None => complaint is None,
    }
}

/// The first entry of that name, at or after position `i`.
pub open spec fn entry_from(entries: Seq<BlockEntry>, name: Seq<char>, i: int) -> Option<BlockEntry>
    decreases entries.len() - i,
{
    if i < 0 || i >= entries.len() {
        None
    } else if entries[i].name@ == name {
        Some(entries[i])
    } else {
        entry_from(entries, name, i + 1)
    }
}

/// The entry of that name.
pub open spec fn entry_named(entries: Seq<BlockEntry>, name: Seq<char>) -> Option<BlockEntry> {
    entry_from(entries, name, 0)
}

/// The entry of that name.
pub fn find_entry<'a>(entries: &'a Vec<BlockEntry>, name: &str) -> (r: Option<&'a BlockEntry>)
    ensures
        match r {
            Some(e) => entry_named(entries@, name@) == Some(*e) && e.name@ == name@,
            None => entry_named(entries@, name@) is None,
        },
{
    let mut i: usize = 0;
    while i < entries.len()
        invariant
            i <= entries.len(),
            entry_named(entries@, name@) == entry_from(entries@, name@, i as int),
        decreases entries.len() - i,
    {
        if same(entries[i].name.as_str(), name) {
            return Some(&entries[i]);
        }
        i += 1;
    }
    None
}

/// The device number that a `major:minor` text denotes.
pub open spec fn number_of(text: Seq<char>) -> Result<(u32, u32), Complaint> {
    match crate::text::cut(crate::text::trimmed(text), ":"@) {
        None => Err(Complaint::Invalid("invalid kernel device number"@)),
        Some((major, minor)) => match crate::text::parsed_upto(major, u32::MAX as nat) {
            None => Err(Complaint::Invalid("invalid kernel device major"@)),
            Some(a) => match crate::text::parsed_upto(minor, u32::MAX as nat) {
                None => Err(Complaint::Invalid("invalid kernel device minor"@)),
                Some(b) => Ok((a as u32, b as u32)),
            },
        },
    }
}

/// The device number that a `major:minor` text denotes.
pub fn device_number(text: &str) -> (r: Result<(u32, u32), ProbeError>)
    ensures
        agrees(r, number_of(text@)),
{
    match split_once(trim(text), ":") {
        None => Err(invalid("invalid kernel device number")),
        Some((major, minor)) => {
            assert(crate::text::cut(crate::text::trimmed(text@), ":"@) == Some((major@, minor@)));
            match parse_upto(major, u32::MAX as u64) {
                None => Err(invalid("invalid kernel device major")),
                Some(a) => match parse_upto(minor, u32::MAX as u64) {
                    None => Err(invalid("invalid kernel device minor")),
                    Some(b) => Ok((a as u32, b as u32)),
                },
            }
        },
    }
}

/// The number of an entry's device.
pub open spec fn entry_number(entry: BlockEntry) -> Result<(u32, u32), Complaint> {
    match entry.dev {
        Some(text) => number_of(text@),
        None => Err(Complaint::Unreadable),
    }
}

/// The number of an entry's device.
pub fn number_of_entry(entry: &BlockEntry) -> (r: Result<(u32, u32), ProbeError>)
    ensures
        agrees(r, entry_number(*entry)),
{
    match &entry.dev {
        Some(text) => device_number(text.as_str()),
        None => Err(ProbeError::Unreadable),
    }
}

/// The number of sectors that an attribute denotes.
pub open spec fn sectors_of(text: Option<String>) -> Result<u64, Complaint> {
    match text {
        None => Err(Complaint::Unreadable),
        Some(t) => match crate::text::parsed_upto(crate::text::trimmed(t@), u64::MAX as nat) {
            Some(n) => Ok(n as u64),
            None => Err(Complaint::Invalid("invalid kernel block geometry"@)),
        },
    }
}

/// The number of sectors that an attribute denotes.
pub fn sector_count(text: &Option<String>) -> (r: Result<u64, ProbeError>)
    ensures
        agrees(r, sectors_of(*text)),
{
    match text {
        None => Err(ProbeError::Unreadable),
        Some(t) => match parse_upto(trim(t.as_str()), u64::MAX) {
            Some(n) => Ok(n),
            None => Err(invalid("invalid kernel block geometry")),
        },
    }
}

/// Whether a name is that of a partition of the NBD device: the device's name,
/// `p` and a number, which must be the kernel's own partition number.
pub open spec fn partition_of(
    entries: Seq<BlockEntry>,
    name: Seq<char>,
    nbd: Seq<char>,
) -> Result<bool, Complaint> {
    match crate::text::after_prefix(name, nbd + "p"@) {
        None => Ok(false),
        Some(suffix) => if suffix.len() == 0 || !crate::text::all_digits(suffix) {
            Ok(false)
        } else {
            match crate::text::parsed_upto(suffix, u32::MAX as nat) {
                None => Err(Complaint::Invalid("invalid NBD partition number"@)),
                Some(expected) => match entry_named(entries, name) {
                    None => Err(Complaint::Unreadable),
                    Some(entry) => match entry.partition {
                        None => Err(Complaint::Unreadable),
                        Some(text) => match crate::text::parsed_upto(
                            crate::text::trimmed(text@),
                            u32::MAX as nat,
                        ) {
                            None => Err(Complaint::Invalid("invalid NBD partition number"@)),
                            Some(actual) => if expected == 0 || actual != expected {
                                Err(
                                    Complaint::Invalid(
                                        "NBD partition name does not match its kernel partition number"@,
                                    ),
                                )
                            } else {
                                Ok(true)
                            },
                        },
                    },
                },
            }
        },
    }
}

/// Whether a text consists of decimal digits.
pub fn digits_only(text: &str) -> (r: bool)
    ensures
        r == crate::text::all_digits(text@),
{
    let cs = crate::text::chars_of(text);
    let mut i: usize = 0;
    while i < cs.len()
        invariant
            i <= cs.len(),
            cs@ == text@,
            forall|k: int| 0 <= k < i ==> crate::text::is_digit(#[trigger] text@[k]),
        decreases cs.len() - i,
    {
        if !crate::text::digit(cs[i]) {
            assert(!crate::text::is_digit(text@[i as int]));
            return false;
        }
        i += 1;
    }
    true
}

/// Whether a name is that of a partition of the NBD device.
pub fn is_nbd_partition(entries: &Vec<BlockEntry>, name: &str, nbd: &str) -> (r: Result<
    bool,
    ProbeError,
>)
    ensures
        agrees(r, partition_of(entries@, name@, nbd@)),
{
    let prefix = crate::text::join2(nbd, "p");
    let suffix = match strip_prefix(name, prefix.as_str()) {
        Some(suffix) => suffix,
        None => return Ok(false),
    };
    if suffix.is_empty() || !digits_only(suffix) {
        return Ok(false);
    }
    let expected: u64 = match parse_upto(suffix, u32::MAX as u64) {
        Some(n) => n,
        None => return Err(invalid("invalid NBD partition number")),
    };
    let entry = match find_entry(entries, name) {
        Some(entry) => entry,
        None => return Err(ProbeError::Unreadable),
    };
    let text = match &entry.partition {
        Some(text) => text,
        None => return Err(ProbeError::Unreadable),
    };
    let actual: u64 = match parse_upto(trim(text.as_str()), u32::MAX as u64) {
        Some(n) => n,
        None => return Err(invalid("invalid NBD partition number")),
    };
    if expected == 0 || actual != expected {
        return Err(invalid("NBD partition name does not match its kernel partition number"));
    }
    Ok(true)
}

// ---------- what the kernel writes reads back ----------

/// A text of the kernel: a word with a line feed behind it.
pub open spec fn kernel_text(text: Option<String>, word: Seq<char>) -> bool {
    text matches Some(t) && (t@ == word || t@ == word + seq!['\n'])
}

/// The device number of the kernel is read as it is written, with or without
/// the line feed behind it.
pub proof fn device_numbers_read_back(major: u32, minor: u32)
    ensures
        ({
            let text = crate::text::decimal(major as nat) + ":"@ + crate::text::decimal(
                minor as nat,
            );
            &&& number_of(text) == Ok::<(u32, u32), Complaint>((major, minor))
            &&& number_of(text + seq!['\n']) == Ok::<(u32, u32), Complaint>((major, minor))
            &&& crate::text::plain_word(text)
        }),
{
    reveal_strlit(":");
    let a = crate::text::decimal(major as nat);
    let b = crate::text::decimal(minor as nat);
    let text = a + ":"@ + b;
    crate::text::numerals_are_read_up_to_a_limit(major as nat, u32::MAX as nat);
    crate::text::numerals_are_read_up_to_a_limit(minor as nat, u32::MAX as nat);
    assert(":"@ =~= seq![':']);
    assert(!a.contains(':')) by {
        if a.contains(':') {
            let k = a.index_of(':');
            assert(crate::text::is_digit(a[k]));
        }
    }
    crate::text::texts_are_cut_at_the_first_mark(a, ':', b);
    assert forall|i: int| 0 <= i < text.len() implies !crate::text::is_white(#[trigger] text[i]) by {
        if i < a.len() {
            assert(text[i] == a[i]);
        } else if i > a.len() {
            assert(text[i] == b[i - a.len() - 1]);
        }
    }
    crate::text::line_feeds_are_trimmed(text);
}

/// Two device numbers that read alike are the same.
pub proof fn device_numbers_are_told_apart(a: (u32, u32), b: (u32, u32))
    requires
        crate::text::decimal(a.0 as nat) + ":"@ + crate::text::decimal(a.1 as nat)
            == crate::text::decimal(b.0 as nat) + ":"@ + crate::text::decimal(b.1 as nat),
    ensures
        a == b,
{
    device_numbers_read_back(a.0, a.1);
    device_numbers_read_back(b.0, b.1);
}

/// A number of sectors is read as it is written.
pub proof fn sector_counts_read_back(text: Option<String>, n: u64)
    requires
        kernel_text(text, crate::text::decimal(n as nat)),
    ensures
        sectors_of(text) == Ok::<u64, Complaint>(n),
{
    crate::text::numerals_are_read_up_to_a_limit(n as nat, u64::MAX as nat);
    crate::text::line_feeds_are_trimmed(crate::text::decimal(n as nat));
}

/// A partition of the NBD device is known by its name and by the number that
/// the kernel gives it.
pub proof fn partitions_are_known_by_their_number(
    entries: Seq<BlockEntry>,
    nbd: Seq<char>,
    k: u32,
)
    requires
        k > 0,
        entry_named(entries, nbd + "p"@ + crate::text::decimal(k as nat)) matches Some(entry)
            && kernel_text(entry.partition, crate::text::decimal(k as nat)),
    ensures
        partition_of(entries, nbd + "p"@ + crate::text::decimal(k as nat), nbd) == Ok::<
            bool,
            Complaint,
        >(true),
{
    crate::text::numerals_are_read_up_to_a_limit(k as nat, u32::MAX as nat);
    crate::text::line_feeds_are_trimmed(crate::text::decimal(k as nat));
    crate::text::prefixes_come_off(nbd + "p"@, crate::text::decimal(k as nat));
}

/// Whatever does not begin like a partition of the NBD device is none.
pub proof fn other_names_are_no_partitions(
    entries: Seq<BlockEntry>,
    name: Seq<char>,
    nbd: Seq<char>,
)
    requires
        !crate::text::starts_with(name, nbd + "p"@),
    ensures
        partition_of(entries, name, nbd) == Ok::<bool, Complaint>(false),
{
}

/// Where names do not repeat, each entry is found under its own.
pub proof fn entries_are_found_by_name(entries: Seq<BlockEntry>, k: int)
    requires
        0 <= k < entries.len(),
        forall|i: int| 0 <= i < k ==> (#[trigger] entries[i]).name@ != entries[k].name@,
    ensures
        entry_named(entries, entries[k].name@) == Some(entries[k]),
{
    lemma_entry_from(entries, k, 0);
}

proof fn lemma_entry_from(entries: Seq<BlockEntry>, k: int, i: int)
    requires
        0 <= i <= k < entries.len(),
        forall|j: int| 0 <= j < k ==> (#[trigger] entries[j]).name@ != entries[k].name@,
    ensures
        entry_from(entries, entries[k].name@, i) == Some(entries[k]),
    decreases k - i,
{
    if i < k {
        lemma_entry_from(entries, k, i + 1);
    }
}

/// A device number needs its colon, and numbers on both sides.
pub proof fn numbers_need_their_colon(text: Seq<char>)
    ensures
        !crate::text::trimmed(text).contains(':') ==> number_of(text) is Err,
        number_of(text) is Ok ==> (crate::text::cut(crate::text::trimmed(text), ":"@) matches Some(
            p,
        ) && crate::text::parsed_upto(p.0, u32::MAX as nat) is Some && crate::text::parsed_upto(
            p.1,
            u32::MAX as nat,
        ) is Some),
{
    reveal_strlit(":");
    assert(":"@ =~= seq![':']);
    if !crate::text::trimmed(text).contains(':') {
        crate::text::texts_without_the_mark_are_whole(crate::text::trimmed(text), ':');
    }
}

/// A name that goes on with anything but digits is no partition's, and one whose
/// number is not the kernel's stops the observation.
pub proof fn partitions_have_the_kernels_number(
    entries: Seq<BlockEntry>,
    nbd: Seq<char>,
    rest: Seq<char>,
    k: u32,
    other: u32,
)
    ensures
        rest.len() == 0 || !crate::text::all_digits(rest) ==> partition_of(
            entries,
            nbd + "p"@ + rest,
            nbd,
        ) == Ok::<bool, Complaint>(false),
        entry_named(entries, nbd + "p"@ + crate::text::decimal(k as nat)) is None ==> partition_of(
            entries,
            nbd + "p"@ + crate::text::decimal(k as nat),
            nbd,
        ) is Err,
        (entry_named(entries, nbd + "p"@ + crate::text::decimal(k as nat)) matches Some(entry)
            && kernel_text(entry.partition, crate::text::decimal(other as nat))) && (k == 0 || other
            != k) ==> partition_of(entries, nbd + "p"@ + crate::text::decimal(k as nat), nbd)
            is Err,
{
    crate::text::prefixes_come_off(nbd + "p"@, rest);
    crate::text::prefixes_come_off(nbd + "p"@, crate::text::decimal(k as nat));
    crate::text::numerals_are_read_up_to_a_limit(k as nat, u32::MAX as nat);
    crate::text::numerals_are_read_up_to_a_limit(other as nat, u32::MAX as nat);
    crate::text::line_feeds_are_trimmed(crate::text::decimal(other as nat));
}

/// A check succeeds exactly without a complaint, and fails with its very text.
pub proof fn checks_fail_by_their_complaint(
    r: Result<(), ProbeError>,
    said: Option<&'static str>,
    complaint: Option<Seq<char>>,
)
    ensures
        passes(r, complaint) ==> (r is Ok <==> complaint is None),
        passes(r, complaint) ==> (r matches Err(e) ==> (e matches ProbeError::Invalid(m)
            && complaint == Some(m@))),
        complaint is None ==> passes(Ok(()), complaint),
        says(said, complaint) ==> (said is None <==> complaint is None),
        says(said, complaint) ==> (said matches Some(m) ==> complaint == Some(m@)),
        complaint is None ==> says(None, complaint),
{
}

} // verus!
