//! The space of a volume: what the file system reports, the local snapshots on
//! it, and the APFS container around it.

use crate::bulkstat;
use crate::packages;
use crate::text;
use vstd::prelude::*;

verus! {

/// What the file system reports about a volume.
#[derive(Debug)]
pub struct StatfsInfo {
    pub mount: String,
    pub device: String,
    pub fs_type: String,
    pub total: u64,
    pub used: u64,
    pub free: u64,
    pub available: u64,
}

#[verifier::ext_equal]
pub struct StatModel {
    pub mount: Seq<char>,
    pub device: Seq<char>,
    pub fs_type: Seq<char>,
    pub total: u64,
    pub used: u64,
    pub free: u64,
    pub available: u64,
}

impl View for StatfsInfo {
    type V = StatModel;

    open spec fn view(&self) -> StatModel {
        StatModel {
            mount: self.mount@,
            device: self.device@,
            fs_type: self.fs_type@,
            total: self.total,
            used: self.used,
            free: self.free,
            available: self.available,
        }
    }
}

/// The bytes up to the first zero.
pub open spec fn until_zero(bytes: Seq<u8>) -> Seq<u8>
    decreases bytes.len(),
{
    if bytes.len() == 0 || bytes[0] == 0 {
        Seq::empty()
    } else {
        seq![bytes[0]] + until_zero(bytes.subrange(1, bytes.len() as int))
    }
}

/// The text in an array that ends with a zero byte.
pub fn c_char_array_to_string(bytes: &Vec<u8>) -> (r: String)
    ensures
        r@ == bulkstat::lossy_text(until_zero(bytes@)),
{
    let n: usize = bytes.len();
    let mut name: Vec<u8> = Vec::new();
    let mut i: usize = 0;
    assert(bytes@.subrange(0, n as int) =~= bytes@);
    assert(name@ + until_zero(bytes@) =~= until_zero(bytes@));
    while i < n && bytes[i] != 0
        invariant
            i <= n,
            n == bytes@.len(),
            name@ + until_zero(bytes@.subrange(i as int, n as int)) == until_zero(bytes@),
        decreases n - i,
    {
        let b: u8 = bytes[i];
        let ghost here = bytes@.subrange(i as int, n as int);
        let ghost rest = bytes@.subrange(i + 1, n as int);
        assert(here[0] == b);
        assert(here.subrange(1, here.len() as int) =~= rest);
        assert(name@ + (seq![b] + until_zero(rest)) =~= name@.push(b) + until_zero(rest));
        name.push(b);
        i += 1;
    }
    assert(until_zero(bytes@.subrange(i as int, n as int)) =~= Seq::<u8>::empty());
    assert(name@ + Seq::<u8>::empty() =~= name@);
    bulkstat::name_text(&name)
}

/// A product that stops at the largest number.
fn capped_product(a: u64, b: u64) -> (r: u64)
    ensures
        r == bulkstat::capped(a * b),
{
    assert(a * b <= 0xffff_ffff_ffff_ffff * 0xffff_ffff_ffff_ffff) by (nonlinear_arith)
        requires
            a <= 0xffff_ffff_ffff_ffff,
            b <= 0xffff_ffff_ffff_ffff,
    ;
    let p: u128 = a as u128 * b as u128;
    if p <= u64::MAX as u128 {
        p as u64
    } else {
        u64::MAX
    }
}

/// The figures of a volume, from its counts of blocks.
pub fn statfs_info(
    mount: &Vec<u8>,
    device: &Vec<u8>,
    fs_type: &Vec<u8>,
    block_size: u64,
    blocks: u64,
    free_blocks: u64,
    available_blocks: u64,
) -> (r: StatfsInfo)
    ensures
        r@ == (StatModel {
            mount: bulkstat::lossy_text(until_zero(mount@)),
            device: bulkstat::lossy_text(until_zero(device@)),
            fs_type: bulkstat::lossy_text(until_zero(fs_type@)),
            total: bulkstat::capped(blocks * block_size),
            used: if bulkstat::capped(blocks * block_size) > bulkstat::capped(
                free_blocks * block_size,
            ) {
                (bulkstat::capped(blocks * block_size) - bulkstat::capped(
                    free_blocks * block_size,
                )) as u64
            } else {
                0
            },
            free: bulkstat::capped(free_blocks * block_size),
            available: bulkstat::capped(available_blocks * block_size),
        }),
        blocks * block_size <= 0xffff_ffff_ffff_ffff && free_blocks <= blocks ==> r.total == blocks
            * block_size && r.free == free_blocks * block_size && r.used + r.free == r.total,
        available_blocks * block_size <= 0xffff_ffff_ffff_ffff ==> r.available == available_blocks
            * block_size,
{
    assert(free_blocks <= blocks ==> free_blocks * block_size <= blocks * block_size)
        by (nonlinear_arith);
    let total: u64 = capped_product(blocks, block_size);
    let free: u64 = capped_product(free_blocks, block_size);
    let available: u64 = capped_product(available_blocks, block_size);
    StatfsInfo {
        mount: c_char_array_to_string(mount),
        device: c_char_array_to_string(device),
        fs_type: c_char_array_to_string(fs_type),
        total,
        used: total.saturating_sub(free),
        free,
        available,
    }
}

// ---------------------------------------------------------------------------
// Snapshots
// ---------------------------------------------------------------------------

/// The local snapshots of a volume, or why they could not be listed.
#[derive(Debug)]
pub struct SnapshotListing {
    pub names: Vec<String>,
    pub error: Option<String>,
}

#[verifier::ext_equal]
pub struct SnapshotModel {
    pub names: Seq<Seq<char>>,
    pub error: Option<Seq<char>>,
}

impl View for SnapshotListing {
    type V = SnapshotModel;

    open spec fn view(&self) -> SnapshotModel {
        SnapshotModel { names: text::texts(self.names@), error: packages::opt_text(self.error) }
    }
}

impl Default for SnapshotListing {
    fn default() -> (r: SnapshotListing)
        ensures
            r@ == (SnapshotModel { names: Seq::empty(), error: None }),
    {
        let r = SnapshotListing { names: Vec::new(), error: None };
        assert(r@.names =~= Seq::<Seq<char>>::empty());
        r
    }
}

/// The line names a snapshot.
pub open spec fn is_snapshot(line: Seq<char>) -> bool {
    line.len() > 0 && !text::has_prefix(line, "Snapshots for "@)
}

/// The names among the lines that `tmutil listlocalsnapshots` printed.
pub fn parse_tmutil_snapshot_names(output: &str) -> (r: Vec<String>)
    ensures
        text::texts(r@) == text::trimmed_lines(output@).filter(
            |line: Seq<char>| is_snapshot(line),
        ),
{
    let lines = text::trim_lines(output);
    let ghost all = text::trimmed_lines(output@);
    let ghost wanted = |line: Seq<char>| is_snapshot(line);
    let mut r: Vec<String> = Vec::new();
    let mut i: usize = 0;
    proof {
        reveal(Seq::filter);
        assert(all.take(0) =~= Seq::<Seq<char>>::empty());
        assert(text::texts(r@) =~= Seq::<Seq<char>>::empty());
    }
    while i < lines.len()
        invariant
            i <= lines@.len(),
            all == text::texts(lines@),
            wanted == (|line: Seq<char>| is_snapshot(line)),
            text::texts(r@) == all.take(i as int).filter(wanted),
        decreases lines@.len() - i,
    {
        let line = lines[i].as_str();
        proof {
            reveal(Seq::filter);
            assert(all.take(i + 1).drop_last() =~= all.take(i as int));
            assert(all.take(i + 1).last() == line@);
        }
        if !line.is_empty() && !text::starts_with_text(line, "Snapshots for ") {
            let name = line.to_owned();
            proof {
                text::texts_push(r@, name);
            }
            r.push(name);
        }
        i += 1;
    }
    assert(all.take(all.len() as int) =~= all);
    r
}

/// What a command printed and whether it succeeded.
#[derive(Debug)]
pub struct CommandOutput {
    pub success: bool,
    pub stdout: String,
    pub stderr: String,
}

/// What a failed command says: what it printed as an error, else what it
/// printed at all.
pub open spec fn complaint(stdout: Seq<char>, stderr: Seq<char>) -> Seq<char> {
    if text::trimmed(stderr).len() == 0 {
        text::trimmed(stdout)
    } else {
        text::trimmed(stderr)
    }
}

fn find_complaint(stdout: &str, stderr: &str) -> (r: String)
    ensures
        r@ == complaint(stdout@, stderr@),
{
    let shown = text::trim_text(stderr);
    if shown.as_str().is_empty() {
        text::trim_text(stdout)
    } else {
        shown
    }
}

/// The local snapshots, from what `tmutil` printed, or from the reason why it
/// could not be run.
pub fn list_local_snapshots(outcome: Result<CommandOutput, String>) -> (r: SnapshotListing)
    ensures
        r@ == match outcome {
            Ok(output) => if output.success {
                SnapshotModel {
                    names: text::trimmed_lines(output.stdout@).filter(
                        |line: Seq<char>| is_snapshot(line),
                    ),
                    error: None,
                }
            } else {
                SnapshotModel {
                    names: Seq::empty(),
                    error: Some(complaint(output.stdout@, output.stderr@)),
                }
            },
            Err(reason) => SnapshotModel { names: Seq::empty(), error: Some(reason@) },
        },
{
    let mut r = SnapshotListing::default();
    match outcome {
        Ok(output) => {
            if output.success {
                r.names = parse_tmutil_snapshot_names(output.stdout.as_str());
            } else {
                r.error = Some(find_complaint(output.stdout.as_str(), output.stderr.as_str()));
            }
        },
        Err(reason) => {
            r.error = Some(reason);
        },
    }
    r
}

/// What thinning the snapshots gave.
#[derive(Debug)]
pub struct ThinResult {
    pub path: String,
    pub requested_bytes: u64,
    pub stdout: String,
    pub stderr: String,
}

#[verifier::ext_equal]
pub struct ThinModel {
    pub path: Seq<char>,
    pub requested_bytes: u64,
    pub stdout: Seq<char>,
    pub stderr: Seq<char>,
}

impl View for ThinResult {
    type V = ThinModel;

    open spec fn view(&self) -> ThinModel {
        ThinModel {
            path: self.path@,
            requested_bytes: self.requested_bytes,
            stdout: self.stdout@,
            stderr: self.stderr@,
        }
    }
}

/// Why the snapshots were not thinned.
#[derive(Debug)]
pub enum ThinError {
    NothingToThin,
    Failed(String),
}

impl ThinError {
    pub open spec fn text(self) -> Seq<char> {
        match self {
            ThinError::NothingToThin => "snapshot thin amount must be greater than zero"@,
            ThinError::Failed(message) => "tmutil thinlocalsnapshots failed: "@ + message@,
        }
    }

    pub fn message(&self) -> (r: String)
        ensures
            r@ == self.text(),
    {
        match self {
            ThinError::NothingToThin => "snapshot thin amount must be greater than zero".to_owned(),
            ThinError::Failed(message) => text::join2(
                "tmutil thinlocalsnapshots failed: ",
                message.as_str(),
            ),
        }
    }
}

/// The arguments with which `tmutil` thins the snapshots of a volume.
pub open spec fn thin_line(path: Seq<char>, bytes: u64) -> Seq<Seq<char>> {
    seq!["thinlocalsnapshots"@, path, text::decimal(bytes as nat), "4"@]
}

/// The arguments with which `tmutil` thins the snapshots of a volume.
pub fn thin_arguments(path: &str, bytes: u64) -> (r: Result<Vec<String>, ThinError>)
    ensures
        match r {
            Ok(args) => bytes > 0 && text::texts(args@) == thin_line(path@, bytes),
            Err(e) => bytes == 0 && e == ThinError::NothingToThin,
        },
{
    if bytes == 0 {
        return Err(ThinError::NothingToThin);
    }
    let mut args: Vec<String> = Vec::new();
    args.push("thinlocalsnapshots".to_owned());
    args.push(path.to_owned());
    args.push(text::decimal_text(bytes));
    args.push("4".to_owned());
    assert(text::texts(args@) =~= thin_line(path@, bytes));
    Ok(args)
}

/// What thinning the snapshots of a volume gave, from what `tmutil` printed.
pub fn thin_local_snapshots(path: &str, bytes: u64, output: &CommandOutput) -> (r: Result<
    ThinResult,
    ThinError,
>)
    ensures
        match r {
            Ok(done) => bytes > 0 && output.success && done@ == (ThinModel {
                path: path@,
                requested_bytes: bytes,
                stdout: text::trimmed(output.stdout@),
                stderr: text::trimmed(output.stderr@),
            }),
            Err(ThinError::NothingToThin) => bytes == 0,
            Err(ThinError::Failed(message)) => bytes > 0 && !output.success && message@
                == complaint(output.stdout@, output.stderr@),
        },
{
    if bytes == 0 {
        return Err(ThinError::NothingToThin);
    }
    if !output.success {
        return Err(
            ThinError::Failed(find_complaint(output.stdout.as_str(), output.stderr.as_str())),
        );
    }
    Ok(
        ThinResult {
            path: path.to_owned(),
            requested_bytes: bytes,
            stdout: text::trim_text(output.stdout.as_str()),
            stderr: text::trim_text(output.stderr.as_str()),
        },
    )
}

// ---------------------------------------------------------------------------
// Property lists
// ---------------------------------------------------------------------------

#[verifier::external_type_specification]
#[verifier::external_body]
pub struct ExPlistValue(plist::Value);

#[verifier::external_type_specification]
#[verifier::external_body]
pub struct ExPlistDictionary(plist::Dictionary);

/// What a value of a property list holds. Lists, truth values, data, dates,
/// fractions and references are all one here.
pub enum Plist {
    Text(Seq<char>),
    Integer(int),
    Dictionary(Map<Seq<char>, Plist>),
    Other,
}

/// The contents of a `plist::Value`.
pub uninterp spec fn plist_model(value: plist::Value) -> Plist;

/// The contents of a `plist::Dictionary`.
pub uninterp spec fn dictionary_model(dict: plist::Dictionary) -> Map<Seq<char>, Plist>;

/// The value that bytes denote: what `plist::Value::from_reader` makes of them.
pub uninterp spec fn plist_parsed(bytes: Seq<u8>) -> Option<Plist>;

/// `plist::Value::from_reader` on bytes in memory: a function of the bytes.
/// Which bytes are a property list is left unsaid.
#[verifier::external_body]
fn parse_plist(bytes: &Vec<u8>) -> (r: Option<plist::Value>)
    ensures
        match r {
            Some(v) => plist_parsed(bytes@) == Some(plist_model(v)),
            None => plist_parsed(bytes@) is None,
        },
{
    plist::Value::from_reader(std::io::Cursor::new(bytes)).ok()
}

/// `plist::Value::as_dictionary`: the dictionary where the value is one.
#[verifier::external_body]
fn as_dictionary(value: &plist::Value) -> (r: Option<&plist::Dictionary>)
    ensures
        match r {
            Some(d) => plist_model(*value) == Plist::Dictionary(dictionary_model(*d)),
            None => !(plist_model(*value) is Dictionary),
        },
{
    value.as_dictionary()
}

/// `plist::Dictionary::get`: the value under a key.
#[verifier::external_body]
fn dictionary_get<'a>(dict: &'a plist::Dictionary, key: &str) -> (r: Option<&'a plist::Value>)
    ensures
        match r {
            Some(v) => dictionary_model(*dict).contains_key(key@) && dictionary_model(*dict)[key@]
                == plist_model(*v),
            None => !dictionary_model(*dict).contains_key(key@),
        },
{
    dict.get(key)
}

/// `plist::Value::as_string`: the text where the value is one.
#[verifier::external_body]
fn as_string(value: &plist::Value) -> (r: Option<&str>)
    ensures
        match r {
            Some(t) => plist_model(*value) == Plist::Text(t@),
            None => !(plist_model(*value) is Text),
        },
{
    value.as_string()
}

/// `plist::Value::as_unsigned_integer`: the number where the value is a whole
/// one that fits 64 bits without a sign.
#[verifier::external_body]
fn as_unsigned_integer(value: &plist::Value) -> (r: Option<u64>)
    ensures
        match r {
            Some(n) => plist_model(*value) == Plist::Integer(n as int),
            None => match plist_model(*value) {
                Plist::Integer(n) => n < 0 || n > u64::MAX,
                _ => true,
            },
        },
{
    value.as_unsigned_integer()
}

/// An APFS container.
#[derive(Debug)]
pub struct ApfsContainer {
    pub reference: String,
    pub size: u64,
    pub free: u64,
}

#[verifier::ext_equal]
pub struct ContainerModel {
    pub reference: Seq<char>,
    pub size: u64,
    pub free: u64,
}

impl View for ApfsContainer {
    type V = ContainerModel;

    open spec fn view(&self) -> ContainerModel {
        ContainerModel { reference: self.reference@, size: self.size, free: self.free }
    }
}

/// The text under a key.
pub open spec fn text_under(m: Map<Seq<char>, Plist>, key: Seq<char>) -> Option<Seq<char>> {
    if m.contains_key(key) {
        match m[key] {
            Plist::Text(t) => Some(t),
            _ => None,
        }
    } else {
        None
    }
}

/// The number under a key.
pub open spec fn number_under(m: Map<Seq<char>, Plist>, key: Seq<char>) -> Option<u64> {
    if m.contains_key(key) {
        match m[key] {
            Plist::Integer(n) => if 0 <= n <= u64::MAX {
                Some(n as u64)
            } else {
                None
            },
            _ => None,
        }
    } else {
        None
    }
}

/// The container that a report of `diskutil` names: its reference, its size and
/// its free space all have to be there.
pub open spec fn container_in(value: Plist) -> Option<ContainerModel> {
    match value {
        Plist::Dictionary(m) => match (
            text_under(m, "APFSContainerReference"@),
            number_under(m, "APFSContainerSize"@),
            number_under(m, "APFSContainerFree"@),
        ) {
            (Some(reference), Some(size), Some(free)) => Some(
                ContainerModel { reference, size, free },
            ),
            _ => None,
        },
        _ => None,
    }
}

pub open spec fn container_view(c: Option<ApfsContainer>) -> Option<ContainerModel> {
    match c {
        Some(c) => Some(c@),
        None => None,
    }
}

fn get_unsigned(dict: &plist::Dictionary, key: &str) -> (r: Option<u64>)
    ensures
        r == number_under(dictionary_model(*dict), key@),
{
    match dictionary_get(dict, key) {
        Some(v) => as_unsigned_integer(v),
        None => None,
    }
}

/// The container of a parsed report of `diskutil`.
pub fn apfs_container(value: &plist::Value) -> (r: Option<ApfsContainer>)
    ensures
        container_view(r) == container_in(plist_model(*value)),
{
    let dict = match as_dictionary(value) {
        Some(dict) => dict,
        None => {
            return None;
        },
    };
    let reference = match dictionary_get(dict, "APFSContainerReference") {
        Some(v) => match as_string(v) {
            Some(t) => t.to_owned(),
            None => {
                return None;
            },
        },
        None => {
            return None;
        },
    };
    match (get_unsigned(dict, "APFSContainerSize"), get_unsigned(dict, "APFSContainerFree")) {
        (Some(size), Some(free)) => Some(ApfsContainer { reference, size, free }),
        _ => None,
    }
}

/// The container around a volume, from what `diskutil info -plist` printed.
pub fn apfs_container_for_mount(success: bool, stdout: &Vec<u8>) -> (r: Option<ApfsContainer>)
    ensures
        container_view(r) == if success {
            match plist_parsed(stdout@) {
                Some(value) => container_in(value),
                None => None,
            }
        } else {
            None
        },
{
    if !success {
        return None;
    }
    match parse_plist(stdout) {
        Some(value) => apfs_container(&value),
        None => None,
    }
}

// ---------------------------------------------------------------------------
// Reports
// ---------------------------------------------------------------------------

/// The space of the volume on which a path lies.
#[derive(Debug)]
pub struct SpaceReport {
    pub path: String,
    pub mount: String,
    pub device: String,
    pub fs_type: String,
    pub total: u64,
    pub used: u64,
    pub free: u64,
    pub available: u64,
    pub local_snapshots: SnapshotListing,
    pub apfs_container: Option<ApfsContainer>,
}

#[verifier::ext_equal]
pub struct SpaceModel {
    pub path: Seq<char>,
    pub stat: StatModel,
    pub local_snapshots: SnapshotModel,
    pub apfs_container: Option<ContainerModel>,
}

impl View for SpaceReport {
    type V = SpaceModel;

    open spec fn view(&self) -> SpaceModel {
        SpaceModel {
            path: self.path@,
            stat: StatModel {
                mount: self.mount@,
                device: self.device@,
                fs_type: self.fs_type@,
                total: self.total,
                used: self.used,
                free: self.free,
                available: self.available,
            },
            local_snapshots: self.local_snapshots@,
            apfs_container: container_view(self.apfs_container),
        }
    }
}

impl SpaceReport {
    /// Free space that users cannot have.
    pub fn unavailable_free(&self) -> (r: u64)
        ensures
            r == if self.free > self.available {
                (self.free - self.available) as u64
            } else {
                0
            },
    {
        self.free.saturating_sub(self.available)
    }
}

/// The volume is one whose container `diskutil` knows.
pub fn has_container(stat: &StatfsInfo) -> (r: bool)
    ensures
        r == (stat@.fs_type == "apfs"@),
{
    text::same_text(stat.fs_type.as_str(), "apfs")
}

/// The report on a path: an error where there is nothing or where the file
/// system gave one, else what the file system, `tmutil` and, on APFS, `diskutil`
/// said.
pub fn report_for_path(
    path: &str,
    exists: bool,
    stat: Result<StatfsInfo, String>,
    local_snapshots: SnapshotListing,
    container: Option<ApfsContainer>,
) -> (r: Result<SpaceReport, String>)
    ensures
        match r {
            Ok(report) => exists && stat is Ok && report@ == (SpaceModel {
                path: path@,
                stat: stat->Ok_0@,
                local_snapshots: local_snapshots@,
                apfs_container: if stat->Ok_0@.fs_type == "apfs"@ {
                    container_view(container)
                } else {
                    None
                },
            }),
            Err(message) => if exists {
                stat is Err && message@ == stat->Err_0@
            } else {
                message@ == "path does not exist: "@ + path@
            },
        },
{
    if !exists {
        return Err(text::join2("path does not exist: ", path));
    }
    match stat {
        Ok(s) => {
            let apfs_container = if has_container(&s) {
                container
            } else {
                None
            };
            Ok(
                SpaceReport {
                    path: path.to_owned(),
                    mount: s.mount,
                    device: s.device,
                    fs_type: s.fs_type,
                    total: s.total,
                    used: s.used,
                    free: s.free,
                    available: s.available,
                    local_snapshots,
                    apfs_container,
                },
            )
        },
        Err(reason) => Err(reason),
    }
}

// ---------------------------------------------------------------------------
// Laws
// ---------------------------------------------------------------------------

/// The text in an array ends before the first zero, or with the array.
pub proof fn texts_end_at_the_first_zero(bytes: Seq<u8>) -> (n: int)
    ensures
        0 <= n <= bytes.len(),
        until_zero(bytes) == bytes.subrange(0, n),
        forall|i: int| 0 <= i < n ==> #[trigger] bytes[i] != 0,
        n < bytes.len() ==> bytes[n] == 0,
    decreases bytes.len(),
{
    if bytes.len() == 0 || bytes[0] == 0 {
        assert(bytes.subrange(0, 0) =~= Seq::<u8>::empty());
        0
    } else {
        let tail = bytes.subrange(1, bytes.len() as int);
        let n = texts_end_at_the_first_zero(tail);
        assert(seq![bytes[0]] + tail.subrange(0, n) =~= bytes.subrange(0, n + 1));
        assert forall|i: int| 0 <= i < n + 1 implies #[trigger] bytes[i] != 0 by {
            if i > 0 {
                assert(bytes[i] == tail[i - 1]);
            }
        }
        n + 1
    }
}

/// The container of a report is what its three entries say, each as it stands
/// there; without one of them there is none.
pub proof fn containers_are_read_as_they_stand(
    m: Map<Seq<char>, Plist>,
    reference: Seq<char>,
    size: u64,
    free: u64,
)
    ensures
        ({
            let told = m.contains_key("APFSContainerReference"@) && m["APFSContainerReference"@]
                == Plist::Text(reference) && m.contains_key("APFSContainerSize"@)
                && m["APFSContainerSize"@] == Plist::Integer(size as int) && m.contains_key(
                "APFSContainerFree"@,
            ) && m["APFSContainerFree"@] == Plist::Integer(free as int);
            told <==> container_in(Plist::Dictionary(m)) == Some(
                ContainerModel { reference, size, free },
            )
        }),
{
}

/// The lines that name snapshots: those that are neither empty nor the heading,
/// all of them.
pub proof fn every_snapshot_is_listed(line: Seq<char>)
    ensures
        is_snapshot(line) <==> line.len() > 0 && !(line.len() >= 14 && line.subrange(0, 14)
            == "Snapshots for "@),
{
    reveal_strlit("Snapshots for ");
}

} // verus!
