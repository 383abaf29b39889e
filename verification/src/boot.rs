//! Boot entries: their types, names and order.
//!
//! Two boot loaders read the entries. Grub takes the name of an entry's file for that of a package
//! and lists entries by name, version and release in descending order. Systemd-boot lists them by
//! their sort key in ascending order. Under both, the new deployment comes first and the one that
//! is booted second.
use crate::text;
use vstd::prelude::*;

verus! {

/// Holds the UUID of the EFI system partition's file system, for Grub.
pub const EFI_UUID_FILE: &'static str = "efiuuid.cfg";

/// The directory of EFI executables.
pub const EFI_LINUX: &'static str = "EFI/Linux";

/// The directory of unified kernel images that systemd-boot shall not list by itself.
pub const SYSTEMD_UKI_DIR: &'static str = "EFI/Linux/bootc";

/// The release in the file name of the new entry.
pub const FILENAME_PRIORITY_PRIMARY: &'static str = "1";

/// The release in the file name of the entry that is booted.
pub const FILENAME_PRIORITY_SECONDARY: &'static str = "0";

/// The end of the sort key of the new entry.
pub const SORTKEY_PRIORITY_PRIMARY: &'static str = "0";

/// The end of the sort key of the entry that is booted.
pub const SORTKEY_PRIORITY_SECONDARY: &'static str = "1";

/// The kernel argument that names the root file system.
pub const COMPOSEFS_CMDLINE: &'static str = "composefs";

/// How a deployment is booted.
#[derive(Debug, Clone, Copy, PartialEq, Eq, Structural)]
pub enum BootType {
    Bls,
    Uki,
}

impl Default for BootType {
    fn default() -> (r: Self)
        ensures
            r == BootType::Bls,
    {
        BootType::Bls
    }
}

/// The kinds of boot entries that a file system holds.
#[derive(Debug, Clone, Copy, PartialEq, Eq, Structural)]
pub enum EntryKind {
    /// An entry file with a kernel and an initial ramdisk.
    Type1,
    /// A unified kernel image.
    Type2,
    /// A kernel in `/usr/lib/modules`.
    UsrLibModulesVmLinuz,
}

/// The boot loaders that are known.
#[derive(Debug, Clone, Copy, PartialEq, Eq, Structural)]
pub enum Bootloader {
    Grub,
    Systemd,
}

/// The name of a boot type.
pub open spec fn boot_type_name(t: BootType) -> Seq<char> {
    match t {
        BootType::Bls => "bls"@,
        BootType::Uki => "uki"@,
    }
}

/// The message for a name that is no boot type's.
pub open spec fn unrecognized(value: Seq<char>) -> Seq<char> {
    "Unrecognized boot option: '"@ + value + "'"@
}

impl BootType {
    /// The name of the type.
    pub fn name(&self) -> (r: &'static str)
        ensures
            r@ == boot_type_name(*self),
    {
        match self {
            BootType::Bls => "bls",
            BootType::Uki => "uki",
        }
    }
}

impl<'a> TryFrom<&'a str> for BootType {
    type Error = String;

    /// The type with this name.
    fn try_from(value: &'a str) -> (r: Result<Self, Self::Error>)
        ensures
            match r {
                Ok(t) => value@ == boot_type_name(t),
                Err(e) => value@ != "bls"@ && value@ != "uki"@ && e@ == unrecognized(value@),
            },
    {
        if text::same(value, "bls") {
            Ok(BootType::Bls)
        } else if text::same(value, "uki") {
            Ok(BootType::Uki)
        } else {
            Err(text::concat3("Unrecognized boot option: '", value, "'"))
        }
    }
}

impl<'a> vstd::std_specs::convert::TryFromSpecImpl<&'a str> for BootType {
    /// The message is told by its view, in the contract of `try_from` itself.
    open spec fn obeys_try_from_spec() -> bool {
        false
    }

    open spec fn try_from_spec(value: &'a str) -> Result<Self, Self::Error> {
        Ok(BootType::Bls)
    }
}

impl From<EntryKind> for BootType {
    fn from(kind: EntryKind) -> (r: Self) {
        match kind {
            EntryKind::Type1 => BootType::Bls,
            EntryKind::Type2 => BootType::Uki,
            EntryKind::UsrLibModulesVmLinuz => BootType::Bls,
        }
    }
}

impl vstd::std_specs::convert::FromSpecImpl<EntryKind> for BootType {
    open spec fn obeys_from_spec() -> bool {
        true
    }

    open spec fn from_spec(kind: EntryKind) -> Self {
        match kind {
            EntryKind::Type1 => BootType::Bls,
            EntryKind::Type2 => BootType::Uki,
            EntryKind::UsrLibModulesVmLinuz => BootType::Bls,
        }
    }
}

/// The name of a boot type stands for that type alone: reading the name gives the type back.
pub proof fn law_boot_type_names(a: BootType, b: BootType)
    ensures
        boot_type_name(a) == boot_type_name(b) ==> a == b,
{
    reveal_strlit("bls");
    reveal_strlit("uki");
    assert("bls"@[0] != "uki"@[0]);
}

/// The beginning of Grub's user configuration: it reads the file with the partition's UUID.
pub fn get_efi_uuid_source() -> (r: String)
    ensures
        r@ == "\nif [ -f ${config_directory}/"@ + EFI_UUID_FILE@
            + " ]; then\n        source ${config_directory}/"@ + EFI_UUID_FILE@ + "\nfi\n"@,
{
    text::concat5(
        "\nif [ -f ${config_directory}/",
        EFI_UUID_FILE,
        " ]; then\n        source ${config_directory}/",
        EFI_UUID_FILE,
        "\nfi\n",
    )
}

/// The file name of an entry.
pub open spec fn entry_file(os_id: Seq<char>, version: Seq<char>, priority: Seq<char>) -> Seq<char> {
    "bootc_"@ + text::replaced(os_id, '-', '_') + "-"@ + version + "-"@ + priority + ".conf"@
}

/// The file name of an entry: `bootc_{os_id}-{version}-{priority}.conf`, with underscores for the
/// dashes of the system's name.
pub fn type1_entry_conf_file_name(os_id: &str, version: &str, priority: &str) -> (r: String)
    ensures
        r@ == entry_file(os_id@, version@, priority@),
{
    let os_id_safe = text::replace(os_id, '-', '_');
    let head = text::concat5("bootc_", os_id_safe.as_str(), "-", version, "-");
    text::concat3(head.as_str(), priority, ".conf")
}

/// The sort key of the new entry.
pub open spec fn primary_key(os_id: Seq<char>) -> Seq<char> {
    "bootc-"@ + os_id + "-"@ + SORTKEY_PRIORITY_PRIMARY@
}

/// The sort key of the entry that is booted.
pub open spec fn secondary_key(os_id: Seq<char>) -> Seq<char> {
    "bootc-"@ + os_id + "-"@ + SORTKEY_PRIORITY_SECONDARY@
}

/// The sort key of the new entry: `bootc-{os_id}-0`.
pub fn primary_sort_key(os_id: &str) -> (r: String)
    ensures
        r@ == primary_key(os_id@),
{
    text::concat4("bootc-", os_id, "-", SORTKEY_PRIORITY_PRIMARY)
}

/// The sort key of the entry that is booted: `bootc-{os_id}-1`.
pub fn secondary_sort_key(os_id: &str) -> (r: String)
    ensures
        r@ == secondary_key(os_id@),
{
    text::concat4("bootc-", os_id, "-", SORTKEY_PRIORITY_SECONDARY)
}

/// What Grub reads in a file name: the name, the version and the release of a package. They stand
/// before, between and after the last two dashes, once `.conf` is gone.
pub open spec fn grub_reads(file: Seq<char>) -> Option<(Seq<char>, Seq<char>, Seq<char>)> {
    match text::without_suffix(file, ".conf"@) {
        Some(stem) => match text::split_at_last(stem, '-') {
            Some((front, release)) => match text::split_at_last(front, '-') {
                Some((name, version)) => Some((name, version, release)),
                None => None,
            },
            None => None,
        },
        None => None,
    }
}

/// Grub reads from an entry's file name what was put in: the system's name behind `bootc_`, the
/// version and the priority, as long as neither of the last two holds a dash.
pub proof fn law_grub_reads_back(os_id: Seq<char>, version: Seq<char>, priority: Seq<char>)
    requires
        !version.contains('-'),
        !priority.contains('-'),
    ensures
        grub_reads(entry_file(os_id, version, priority)) == Some(
            ("bootc_"@ + text::replaced(os_id, '-', '_'), version, priority),
        ),
{
    let name = "bootc_"@ + text::replaced(os_id, '-', '_');
    let file = entry_file(os_id, version, priority);
    let front = name + "-"@ + version;
    let stem = front + "-"@ + priority;
    reveal_strlit("-");
    assert(file =~= stem + ".conf"@);
    assert(".conf"@ =~= file.subrange(stem.len() as int, file.len() as int));
    assert(file.subrange(0, stem.len() as int) =~= stem);
    assert(text::without_suffix(file, ".conf"@) == Some(stem));
    let i = front.len() as int;
    assert(stem[i] == '-');
    assert forall|j: int| i < j < stem.len() implies stem[j] != '-' by {
        assert(stem[j] == priority[j - i - 1]);
        if stem[j] == '-' {
            assert(priority.contains('-'));
        }
    }
    text::lemma_find_last_is(stem, '-', i);
    assert(stem.take(i) =~= front && stem.skip(i + 1) =~= priority);
    let k = name.len() as int;
    assert(front[k] == '-');
    assert forall|j: int| k < j < front.len() implies front[j] != '-' by {
        assert(front[j] == version[j - k - 1]);
        if front[j] == '-' {
            assert(version.contains('-'));
        }
    }
    text::lemma_find_last_is(front, '-', k);
    assert(front.take(k) =~= name && front.skip(k + 1) =~= version);
}

/// Of two entries of one system and version, Grub, which lists in descending order, lists the new
/// one first; systemd-boot, which lists in ascending order, does so too.
pub proof fn law_new_entry_first(os_id: Seq<char>, version: Seq<char>)
    ensures
        text::before(
            entry_file(os_id, version, FILENAME_PRIORITY_SECONDARY@),
            entry_file(os_id, version, FILENAME_PRIORITY_PRIMARY@),
        ),
        text::before(primary_key(os_id), secondary_key(os_id)),
        text::before(FILENAME_PRIORITY_SECONDARY@, FILENAME_PRIORITY_PRIMARY@),
{
    reveal_strlit("0");
    reveal_strlit("1");
    let head = "bootc_"@ + text::replaced(os_id, '-', '_') + "-"@ + version + "-"@;
    assert(entry_file(os_id, version, "0"@) =~= head + ("0"@ + ".conf"@));
    assert(entry_file(os_id, version, "1"@) =~= head + ("1"@ + ".conf"@));
    assert(("0"@ + ".conf"@)[0] == '0' && ("1"@ + ".conf"@)[0] == '1');
    text::lemma_before_prefix(head, "0"@ + ".conf"@, "1"@ + ".conf"@);
    let key = "bootc-"@ + os_id + "-"@;
    assert(primary_key(os_id) =~= key + "0"@);
    assert(secondary_key(os_id) =~= key + "1"@);
    text::lemma_before_prefix(key, "0"@, "1"@);
}

/// Of two entries of one system, whatever their priorities, Grub lists the one first whose version
/// has the greater character where the versions first differ.
pub proof fn law_newer_version_first(
    os_id: Seq<char>,
    older: Seq<char>,
    newer: Seq<char>,
    k: int,
    a: Seq<char>,
    b: Seq<char>,
)
    requires
        0 <= k < older.len(),
        k < newer.len(),
        older.take(k) == newer.take(k),
        older[k] < newer[k],
    ensures
        text::before(entry_file(os_id, older, a), entry_file(os_id, newer, b)),
{
    let head = "bootc_"@ + text::replaced(os_id, '-', '_') + "-"@ + older.take(k);
    let x = older.skip(k) + "-"@ + a + ".conf"@;
    let y = newer.skip(k) + "-"@ + b + ".conf"@;
    assert(older =~= older.take(k) + older.skip(k));
    assert(newer =~= newer.take(k) + newer.skip(k));
    assert(entry_file(os_id, older, a) =~= head + x);
    assert(entry_file(os_id, newer, b) =~= head + y);
    assert(x[0] == older[k] && y[0] == newer[k]);
    text::lemma_before_prefix(head, x, y);
}

/// The argument that names the root file system. A question mark makes its verification optional.
pub open spec fn composefs_arg(id: Seq<char>, insecure: bool) -> Seq<char> {
    if insecure {
        COMPOSEFS_CMDLINE@ + "=?"@ + id
    } else {
        COMPOSEFS_CMDLINE@ + "="@ + id
    }
}

/// The argument that names the root file system.
pub fn composefs_karg(id: &str, insecure: bool) -> (r: String)
    ensures
        r@ == composefs_arg(id@, insecure),
{
    if insecure {
        text::concat3(COMPOSEFS_CMDLINE, "=?", id)
    } else {
        text::concat3(COMPOSEFS_CMDLINE, "=", id)
    }
}

/// The file name of an entry starts with `bootc_` and the system's name, and ends with the version
/// and the priority, which are kept as they are. In the system's name every dash becomes an
/// underscore, and nothing else changes.
pub proof fn law_entry_file(os_id: Seq<char>, version: Seq<char>, priority: Seq<char>, i: int)
    ensures
        ({
            let file = entry_file(os_id, version, priority);
            &&& file.len() == 6 + os_id.len() + 1 + version.len() + 1 + priority.len() + 5
            &&& file.subrange(0, 6) == "bootc_"@
            &&& 0 <= i < os_id.len() ==> file[6 + i] == if os_id[i] == '-' {
                '_'
            } else {
                os_id[i]
            }
            &&& file.skip(6 + os_id.len() as int) == "-"@ + version + "-"@ + priority + ".conf"@
        }),
{
    reveal_strlit("bootc_");
    reveal_strlit("-");
    reveal_strlit(".conf");
    let file = entry_file(os_id, version, priority);
    assert(file.subrange(0, 6) =~= "bootc_"@);
    assert(file.skip(6 + os_id.len() as int) =~= "-"@ + version + "-"@ + priority + ".conf"@);
}

/// Both sort keys of a system name it as it is; they differ in nothing but their last character.
pub proof fn law_sort_keys(os_id: Seq<char>)
    ensures
        primary_key(os_id) == "bootc-"@ + os_id + "-0"@,
        secondary_key(os_id) == "bootc-"@ + os_id + "-1"@,
{
    reveal_strlit("-");
    reveal_strlit("0");
    reveal_strlit("1");
    reveal_strlit("-0");
    reveal_strlit("-1");
    assert(primary_key(os_id) =~= "bootc-"@ + os_id + "-0"@);
    assert(secondary_key(os_id) =~= "bootc-"@ + os_id + "-1"@);
}

/// A kind of entry is booted as a unified kernel image exactly if it is one.
pub proof fn law_boot_type_of_kind(kind: EntryKind)
    ensures
        <BootType as vstd::std_specs::convert::FromSpec<EntryKind>>::from_spec(kind)
            == BootType::Uki <==> kind == EntryKind::Type2,
{
}

/// A boot type that is not known is told as it was given, between quotes.
pub proof fn law_unrecognized(value: Seq<char>)
    ensures
        text::without_prefix(unrecognized(value), "Unrecognized boot option: '"@) == Some(
            value + "'"@,
        ),
{
    text::law_taken_off(value + "'"@, "Unrecognized boot option: '"@);
    assert(unrecognized(value) =~= "Unrecognized boot option: '"@ + (value + "'"@));
}

} // verus!
