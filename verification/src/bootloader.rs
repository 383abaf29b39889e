//! Installing a boot loader.
use crate::paths;
use crate::text;
use vstd::prelude::*;

verus! {

/// The mount point of the EFI system partition, in the boot directory or at the root.
pub const EFI_DIR: &'static str = "efi";

/// What bootupd installs from.
pub const BOOTUPD_UPDATES: &'static str = "usr/lib/bootupd/updates";

/// The partition type of the EFI system partition.
pub const ESP: &'static str = "c12a7328-f81f-11d2-ba4b-00a0c93ec93b";

/// A partition.
pub struct Partition {
    /// The device.
    pub node: String,
    pub parttype: String,
    pub uuid: Option<String>,
}

/// A character in lower case, if it is an ASCII letter.
pub open spec fn lower_char(c: char) -> char {
    if 'A' <= c <= 'Z' {
        (c as int + 32) as char
    } else {
        c
    }
}

/// A text with its ASCII letters in lower case.
pub open spec fn lower(s: Seq<char>) -> Seq<char> {
    s.map_values(|c: char| lower_char(c))
}

/// A text with its ASCII letters in lower case.
pub fn lower_text(s: &str) -> (r: String)
    ensures
        r@ == lower(s@),
{
    let v = text::chars_of(s);
    let mut r = String::new();
    let mut i: usize = 0;
    while i < v.len()
        invariant
            i <= v@.len(),
            r@ == lower(v@.take(i as int)),
        decreases v@.len() - i,
    {
        let c = v[i];
        if 'A' <= c && c <= 'Z' {
            r.push((c as u8 + 32) as char);
        } else {
            r.push(c);
        }
        i += 1;
        assert(lower(v@.take(i as int)) =~= lower(v@.take(i - 1)).push(lower_char(c)));
    }
    assert(v@.take(i as int) =~= v@);
    r
}

/// The first partition from the `i`-th on that is an EFI system partition; their number where none
/// is.
pub open spec fn esp_from(partitions: Seq<Partition>, i: int) -> int
    decreases partitions.len() - i,
{
    if i >= partitions.len() {
        partitions.len() as int
    } else if lower(partitions[i].parttype@) == ESP@ {
        i
    } else {
        esp_from(partitions, i + 1)
    }
}

/// The EFI system partition of a device; nothing where it has none.
pub fn esp_in(partitions: &Vec<Partition>) -> (r: Option<&Partition>)
    ensures
        ({
            let k = esp_from(partitions@, 0);
            match r {
                Some(p) => k < partitions@.len() && *p == partitions@[k],
                None => k == partitions@.len(),
            }
        }),
{
    let mut i: usize = 0;
    while i < partitions.len()
        invariant
            i <= partitions@.len(),
            esp_from(partitions@, 0) == esp_from(partitions@, i as int),
        decreases partitions@.len() - i,
    {
        let t = lower_text(partitions[i].parttype.as_str());
        if text::same(t.as_str(), ESP) {
            return Some(&partitions[i]);
        }
        i += 1;
    }
    None
}

/// The device and the UUID of the EFI system partition; nothing where there is none.
pub fn get_esp_partition(partitions: &Vec<Partition>) -> (r: Option<(String, Option<String>)>)
    ensures
        ({
            let k = esp_from(partitions@, 0);
            match r {
                Some((node, uuid)) => k < partitions@.len() && node@ == partitions@[k].node@
                    && text::opt_view(uuid) == text::opt_view(partitions@[k].uuid),
                None => k == partitions@.len(),
            }
        }),
{
    match esp_in(partitions) {
        Some(p) => {
            let uuid = match &p.uuid {
                Some(u) => Some(u.as_str().to_owned()),
                None => None,
            };
            Some((p.node.as_str().to_owned(), uuid))
        },
        None => None,
    }
}

/// Where bootupd's updates are in a system; `/` where none is named.
pub fn bootupd_updates(deployment_path: Option<&str>) -> (r: String)
    ensures
        r@ == match deployment_path {
            Some(p) => paths::joined(p@, BOOTUPD_UPDATES@),
            None => paths::joined("/"@, BOOTUPD_UPDATES@),
        },
{
    match deployment_path {
        Some(p) => paths::join(p, BOOTUPD_UPDATES),
        None => paths::join("/", BOOTUPD_UPDATES),
    }
}

/// Whether bootupd can be used: its tool is here, and there are updates.
pub fn supports_bootupd(have_bootupctl: bool, have_updates: bool) -> (r: bool)
    ensures
        r == (have_bootupctl && have_updates),
{
    have_bootupctl && have_updates
}

/// The command that installs a boot loader by bootupd. Unless the image is meant for any machine, the
/// firmware of this one is updated.
pub fn bootupd_args(
    device: &str,
    rootfs: &str,
    generic_image: bool,
    deployment_path: Option<&str>,
    verbose: bool,
) -> (r: Vec<String>)
    ensures
        text::views(r@) == seq!["bootupctl"@, "backend"@, "install"@, "--write-uuid"@] + (
        if verbose {
            seq!["-vvvv"@]
        } else {
            Seq::empty()
        }) + (if generic_image {
            Seq::empty()
        } else {
            seq!["--update-firmware"@, "--auto"@]
        }) + (match deployment_path {
            Some(p) => seq!["--src-root"@, paths::joined(rootfs@, p@)],
            None => Seq::empty(),
        }) + seq!["--device"@, device@, rootfs@],
{
    let mut r = text::owned(&vec!["bootupctl", "backend", "install", "--write-uuid"]);
    let ghost a = text::views(r@);
    if verbose {
        text::push(&mut r, "-vvvv");
        assert(text::views(r@) =~= a + seq!["-vvvv"@]);
    } else {
        assert(text::views(r@) =~= a + Seq::empty());
    }
    let ghost b = text::views(r@);
    if generic_image {
        assert(text::views(r@) =~= b + Seq::empty());
    } else {
        text::push(&mut r, "--update-firmware");
        text::push(&mut r, "--auto");
        assert(text::views(r@) =~= b + seq!["--update-firmware"@, "--auto"@]);
    }
    let ghost c = text::views(r@);
    match deployment_path {
        Some(p) => {
            let path = paths::join(rootfs, p);
            text::push(&mut r, "--src-root");
            text::push(&mut r, path.as_str());
            assert(text::views(r@) =~= c + seq!["--src-root"@, path@]);
        },
        None => {
            assert(text::views(r@) =~= c + Seq::empty());
        },
    }
    let ghost d = text::views(r@);
    text::push(&mut r, "--device");
    text::push(&mut r, device);
    text::push(&mut r, rootfs);
    assert(text::views(r@) =~= d + seq!["--device"@, device@, rootfs@]);
    r
}

/// The command that installs systemd-boot on a mounted EFI system partition.
pub fn bootctl_args(esp_path: &str) -> (r: Vec<String>)
    ensures
        text::views(r@) == seq!["bootctl"@, "install"@, "--esp-path"@, esp_path@],
{
    text::owned(&vec!["bootctl", "install", "--esp-path", esp_path])
}

/// A block device on a disk.
pub struct BlockDevice {
    /// Its device numbers, if they are known.
    pub maj_min: Option<String>,
    /// Where it starts, if that is known.
    pub start: Option<u64>,
}

/// The first device from the `i`-th on with these numbers; their number where none has them.
pub open spec fn device_from(devices: Seq<BlockDevice>, maj_min: Seq<char>, i: int) -> int
    decreases devices.len() - i,
{
    if i >= devices.len() {
        devices.len() as int
    } else if text::opt_view(devices[i].maj_min) == Some(maj_min) {
        i
    } else {
        device_from(devices, maj_min, i + 1)
    }
}

/// Where the boot partition starts on a disk, zero where that is not known; nothing where it is not
/// on the disk.
pub fn boot_partition_offset(partitions: &Vec<BlockDevice>, maj_min: &str) -> (r: Option<u64>)
    ensures
        ({
            let k = device_from(partitions@, maj_min@, 0);
            if k < partitions@.len() {
                r == Some(
                    match partitions@[k].start {
                        Some(s) => s,
                        None => 0,
                    },
                )
            } else {
                r is None
            }
        }),
{
    let mut i: usize = 0;
    while i < partitions.len()
        invariant
            i <= partitions@.len(),
            device_from(partitions@, maj_min@, 0) == device_from(
                partitions@,
                maj_min@,
                i as int,
            ),
        decreases partitions@.len() - i,
    {
        let same = match &partitions[i].maj_min {
            Some(m) => text::same(m.as_str(), maj_min),
            None => false,
        };
        if same {
            return match partitions[i].start {
                Some(s) => Some(s),
                None => Some(0),
            };
        }
        i += 1;
    }
    None
}

/// Why there is no single entry.
#[derive(Debug, Clone, Copy, PartialEq, Eq, Structural)]
pub enum BlsSearchError {
    NoConfig,
    MoreThanOne,
}

/// Whether a file is an entry.
pub open spec fn is_conf(name: Seq<char>) -> bool {
    paths::extension_of(name) == Some("conf"@)
}

/// How many of the files are entries.
pub open spec fn conf_count(names: Seq<Seq<char>>) -> nat
    decreases names.len(),
{
    if names.len() == 0 {
        0
    } else {
        conf_count(names.drop_last()) + if is_conf(names.last()) {
            1nat
        } else {
            0
        }
    }
}

/// Finds the one entry among the files of a directory.
pub fn single_bls_entry(names: &Vec<String>) -> (r: Result<usize, BlsSearchError>)
    ensures
        match r {
            Ok(i) => i < names@.len() && is_conf(names@[i as int]@) && conf_count(
                text::views(names@),
            ) == 1,
            Err(BlsSearchError::NoConfig) => conf_count(text::views(names@)) == 0,
            Err(BlsSearchError::MoreThanOne) => conf_count(text::views(names@)) > 1,
        },
{
    let mut found: Option<usize> = None;
    let mut i: usize = 0;
    let ghost all = text::views(names@);
    while i < names.len()
        invariant
            i <= names@.len(),
            all == text::views(names@),
            match found {
                Some(k) => k < i && is_conf(names@[k as int]@) && conf_count(all.take(i as int))
                    == 1,
                None => conf_count(all.take(i as int)) == 0,
            },
        decreases names@.len() - i,
    {
        proof {
            assert(all.take(i + 1).drop_last() =~= all.take(i as int));
            assert(all.take(i + 1).last() == names@[i as int]@);
        }
        let conf = match paths::extension(names[i].as_str()) {
            Some(e) => text::same(e, "conf"),
            None => false,
        };
        if conf {
            match found {
                Some(_) => {
                    proof {
                        lemma_conf_count_grows(all, i + 1);
                    }
                    return Err(BlsSearchError::MoreThanOne);
                },
                None => {
                    found = Some(i);
                },
            }
        }
        i += 1;
    }
    assert(all.take(i as int) =~= all);
    match found {
        Some(k) => Ok(k),
        None => Err(BlsSearchError::NoConfig),
    }
}

proof fn lemma_conf_count_grows(names: Seq<Seq<char>>, i: int)
    requires
        0 <= i <= names.len(),
    ensures
        conf_count(names.take(i)) <= conf_count(names),
    decreases names.len(),
{
    if i < names.len() {
        lemma_conf_count_grows(names.drop_last(), i);
        assert(names.drop_last().take(i) =~= names.take(i));
    } else {
        assert(names.take(i) =~= names);
    }
}

/// What an entry boots.
pub struct BlsConf {
    pub kernel: String,
    pub initrd: String,
    pub options: String,
}

/// The keys that an entry must have.
#[derive(Debug, Clone, Copy, PartialEq, Eq, Structural)]
pub enum MissingKey {
    Linux,
    Initrd,
    Options,
}

/// The position of the first white space; the length where there is none.
pub open spec fn space_from(s: Seq<char>, i: int) -> int
    decreases s.len() - i,
{
    if i >= s.len() {
        s.len() as int
    } else if text::is_space(s[i]) {
        i
    } else {
        space_from(s, i + 1)
    }
}

/// The value of a line `key value`.
pub open spec fn line_value(line: Seq<char>, key: Seq<char>) -> Option<Seq<char>> {
    let i = space_from(line, 0);
    if i < line.len() && line.take(i) == key {
        Some(text::trimmed(line.skip(i + 1)))
    } else {
        None
    }
}

/// The value of the last line with a key.
pub open spec fn last_value(lines: Seq<Seq<char>>, key: Seq<char>) -> Option<Seq<char>>
    decreases lines.len(),
{
    if lines.len() == 0 {
        None
    } else {
        match line_value(lines.last(), key) {
            Some(v) => Some(v),
            None => last_value(lines.drop_last(), key),
        }
    }
}

fn value_of_line<'a>(line: &'a str, key: &str) -> (r: Option<&'a str>)
    ensures
        text::opt_slice_view(r) == line_value(line@, key@),
{
    let v = text::chars_of(line);
    let mut i: usize = 0;
    while i < v.len() && !text::space(v[i])
        invariant
            i <= v@.len(),
            v@ == line@,
            space_from(line@, 0) == space_from(line@, i as int),
        decreases v@.len() - i,
    {
        i += 1;
    }
    if i == v.len() {
        return None;
    }
    let front = line.substring_char(0, i);
    assert(front@ =~= line@.take(i as int));
    if text::same(front, key) {
        let back = line.substring_char(i + 1, v.len());
        assert(back@ =~= line@.skip(i + 1));
        Some(text::trim(back))
    } else {
        None
    }
}

fn last_of<'a>(lines: &Vec<&'a str>, key: &str) -> (r: Option<&'a str>)
    ensures
        text::opt_slice_view(r) == last_value(text::slice_views(lines@), key@),
{
    let mut found: Option<&'a str> = None;
    let mut i: usize = 0;
    let ghost all = text::slice_views(lines@);
    while i < lines.len()
        invariant
            i <= lines@.len(),
            all == text::slice_views(lines@),
            text::opt_slice_view(found) == last_value(all.take(i as int), key@),
        decreases lines@.len() - i,
    {
        let line: &'a str = lines[i];
        proof {
            assert(all.take(i + 1).drop_last() =~= all.take(i as int));
            assert(all.take(i + 1).last() == line@);
        }
        match value_of_line(line, key) {
            Some(v) => {
                found = Some(v);
            },
            None => {},
        }
        i += 1;
    }
    assert(all.take(i as int) =~= all);
    found
}

/// Reads what an entry boots: the last value of each key counts, and the paths lose their leading
/// slashes. The error is the first key that is missing.
pub fn parse_bls_conf(content: &str) -> (r: Result<BlsConf, MissingKey>)
    ensures
        ({
            let lines = text::lines_of(content@);
            let linux = last_value(lines, "linux"@);
            let initrd = last_value(lines, "initrd"@);
            let options = last_value(lines, "options"@);
            match r {
                Ok(c) => linux is Some && initrd is Some && options is Some && c.kernel@
                    == text::stripped_start(linux.unwrap(), '/') && c.initrd@
                    == text::stripped_start(initrd.unwrap(), '/') && c.options@ == options.unwrap(),
                Err(MissingKey::Linux) => linux is None,
                Err(MissingKey::Initrd) => linux is Some && initrd is None,
                Err(MissingKey::Options) => linux is Some && initrd is Some && options is None,
            }
        }),
{
    let lines = text::lines(content);
    match last_of(&lines, "linux") {
        None => Err(MissingKey::Linux),
        Some(linux) => match last_of(&lines, "initrd") {
            None => Err(MissingKey::Initrd),
            Some(initrd) => match last_of(&lines, "options") {
                None => Err(MissingKey::Options),
                Some(options) => Ok(
                    BlsConf {
                        kernel: text::trim_start_matches(linux, '/').to_owned(),
                        initrd: text::trim_start_matches(initrd, '/').to_owned(),
                        options: options.to_owned(),
                    },
                ),
            },
        },
    }
}

/// The directory of the entries on a boot file system.
pub fn bls_dir(boot_dir: &str) -> (r: String)
    ensures
        r@ == paths::joined(boot_dir@, "boot/loader/entries"@),
{
    paths::join(boot_dir, "boot/loader/entries")
}

/// The files of a kernel and an initial ramdisk on a boot file system.
pub fn boot_files(boot_dir: &str, conf: &BlsConf) -> (r: (String, String))
    ensures
        r.0@ == paths::joined(boot_dir@, conf.kernel@),
        r.1@ == paths::joined(boot_dir@, conf.initrd@),
{
    (
        paths::join(boot_dir, conf.kernel.as_str()),
        paths::join(boot_dir, conf.initrd.as_str()),
    )
}

/// The command that installs the boot loader of an IBM mainframe.
pub fn zipl_args(
    boot_dir: &str,
    image: &str,
    ramdisk: &str,
    options: &str,
    device: &str,
    offset: u64,
) -> (r: Vec<String>)
    ensures
        text::views(r@) == seq![
            "zipl"@,
            "--target"@,
            boot_dir@,
            "--image"@,
            image@,
            "--ramdisk"@,
            ramdisk@,
            "--parameters"@,
            options@,
            "--targetbase"@,
            device@,
            "--targettype"@,
            "SCSI"@,
            "--targetblocksize"@,
            "512"@,
            "--targetoffset"@,
            text::decimal(offset as nat),
            "--add-files"@,
            "--verbose"@,
        ],
{
    let offset_text = text::decimal_text(offset);
    text::owned(
        &vec![
            "zipl",
            "--target",
            boot_dir,
            "--image",
            image,
            "--ramdisk",
            ramdisk,
            "--parameters",
            options,
            "--targetbase",
            device,
            "--targettype",
            "SCSI",
            "--targetblocksize",
            "512",
            "--targetoffset",
            offset_text.as_str(),
            "--add-files",
            "--verbose",
        ],
    )
}

/// The paths that an entry gives are relative once their leading slashes are gone, so that they stay
/// on the boot file system.
pub proof fn law_boot_paths_relative(path: Seq<char>)
    ensures
        text::stripped_start(path, '/').len() > 0 ==> text::stripped_start(path, '/')[0] != '/',
    decreases path.len(),
{
    if path.len() > 0 && path[0] == '/' {
        law_boot_paths_relative(path.drop_first());
    }
}

/// Lower case changes the capital letters of ASCII, each to the small letter that stands 32 places
/// behind it, and nothing else.
pub proof fn law_lower(s: Seq<char>, i: int)
    requires
        0 <= i < s.len(),
    ensures
        lower(s).len() == s.len(),
        'A' <= s[i] <= 'Z' ==> lower(s)[i] as int == s[i] as int + 32,
        !('A' <= s[i] <= 'Z') ==> lower(s)[i] == s[i],
{
}

/// The EFI system partition is the first that has its type, in whatever case the type is written, and
/// there is none exactly if no partition has the type.
pub proof fn law_esp(partitions: Seq<Partition>)
    ensures
        ({
            let k = esp_from(partitions, 0);
            let is_esp = |p: Partition|
                lower(p.parttype@) == "c12a7328-f81f-11d2-ba4b-00a0c93ec93b"@;
            &&& 0 <= k <= partitions.len()
            &&& k < partitions.len() ==> is_esp(partitions[k])
            &&& forall|j: int| 0 <= j < k ==> !is_esp(#[trigger] partitions[j])
        }),
{
    lemma_esp_from(partitions, 0);
}

proof fn lemma_esp_from(partitions: Seq<Partition>, i: int)
    requires
        0 <= i <= partitions.len(),
    ensures
        i <= esp_from(partitions, i) <= partitions.len(),
        esp_from(partitions, i) < partitions.len() ==> lower(
            partitions[esp_from(partitions, i)].parttype@,
        ) == ESP@,
        forall|j: int|
            i <= j < esp_from(partitions, i) ==> lower((#[trigger] partitions[j]).parttype@)
                != ESP@,
    decreases partitions.len() - i,
{
    if i < partitions.len() && lower(partitions[i].parttype@) != ESP@ {
        lemma_esp_from(partitions, i + 1);
    }
}

/// A device is found by its numbers, wherever it stands: the first that has them, and none exactly if
/// no device has them.
pub proof fn law_device(devices: Seq<BlockDevice>, maj_min: Seq<char>)
    ensures
        ({
            let k = device_from(devices, maj_min, 0);
            &&& 0 <= k <= devices.len()
            &&& k < devices.len() ==> (devices[k].maj_min matches Some(m) && m@ == maj_min)
            &&& forall|j: int|
                0 <= j < k ==> ((#[trigger] devices[j]).maj_min matches Some(m) ==> m@ != maj_min)
        }),
{
    lemma_device_from(devices, maj_min, 0);
}

proof fn lemma_device_from(devices: Seq<BlockDevice>, maj_min: Seq<char>, i: int)
    requires
        0 <= i <= devices.len(),
    ensures
        i <= device_from(devices, maj_min, i) <= devices.len(),
        device_from(devices, maj_min, i) < devices.len() ==> text::opt_view(
            devices[device_from(devices, maj_min, i)].maj_min,
        ) == Some(maj_min),
        forall|j: int|
            i <= j < device_from(devices, maj_min, i) ==> text::opt_view(
                (#[trigger] devices[j]).maj_min,
            ) != Some(maj_min),
    decreases devices.len() - i,
{
    if i < devices.len() && text::opt_view(devices[i].maj_min) != Some(maj_min) {
        lemma_device_from(devices, maj_min, i + 1);
    }
}

/// A file is an entry if its name ends in `.conf` with something before it, and not if it ends
/// otherwise.
pub proof fn law_conf_files(stem: Seq<char>, name: Seq<char>)
    ensures
        stem.len() > 0 ==> is_conf(stem + ".conf"@),
        is_conf(name) ==> ".conf"@.is_suffix_of(name) && name.len() > 5,
{
    reveal_strlit(".conf");
    reveal_strlit("conf");
    reveal_strlit("..");
    assert(!"conf"@.contains('.'));
    paths::law_extension(stem, "conf"@);
    assert(stem + seq!['.'] + "conf"@ =~= stem + ".conf"@);
    if is_conf(name) {
        text::lemma_find_last(name, '.');
        let k = text::find_last(name, '.');
        assert(name.skip(k + 1) == "conf"@);
        assert(name.skip(k + 1).len() == 4);
        let end = name.subrange(name.len() - 5, name.len() as int);
        assert(end[0] == '.');
        assert forall|j: int| 0 < j < 5 implies end[j] == ".conf"@[j] by {
            assert(name.skip(k + 1)[j - 1] == name[k + j]);
            assert("conf"@[j - 1] == ".conf"@[j]);
        }
        assert(end =~= ".conf"@);
    }
}

/// The count of entries tells none, one and several apart: it is zero exactly if no file is an entry,
/// and one exactly if a single one is.
pub proof fn law_conf_count(names: Seq<Seq<char>>, a: int, b: int)
    requires
        0 <= a < names.len(),
        0 <= b < names.len(),
    ensures
        conf_count(names) == 0 ==> !is_conf(names[a]),
        conf_count(names) == 1 && is_conf(names[a]) && is_conf(names[b]) ==> a == b,
        conf_count(names) <= names.len(),
        (forall|j: int| 0 <= j < names.len() ==> !is_conf(#[trigger] names[j])) ==> conf_count(names)
            == 0,
        is_conf(names[a]) && (forall|j: int|
            0 <= j < names.len() && j != a ==> !is_conf(#[trigger] names[j])) ==> conf_count(names)
            == 1,
    decreases names.len(),
{
    let p = |n: Seq<char>| is_conf(n);
    let front = names.drop_last();
    lemma_conf_counts(names);
    lemma_conf_counts(front);
    if a < front.len() && b < front.len() {
        assert(front[a] == names[a] && front[b] == names[b]);
        law_conf_count(front, a, b);
        assert forall|j: int| 0 <= j < front.len() implies front[j] == #[trigger] names[j] by {}
        if is_conf(names[a]) && (forall|j: int|
            0 <= j < names.len() && j != a ==> !is_conf(#[trigger] names[j])) {
            assert(!is_conf(names[names.len() - 1]));
            assert forall|j: int| 0 <= j < front.len() && j != a implies !is_conf(
                #[trigger] front[j],
            ) by {
                assert(front[j] == names[j]);
            }
        }
    } else {
        lemma_conf_none(front);
        assert forall|j: int| 0 <= j < front.len() implies front[j] == #[trigger] names[j] by {}
        if is_conf(names[a]) && is_conf(names[b]) && a != b {
            let c = if a < front.len() {
                a
            } else {
                b
            };
            assert(front[c] == names[c]);
        }
        if is_conf(names[a]) && (forall|j: int|
            0 <= j < names.len() && j != a ==> !is_conf(#[trigger] names[j])) {
            if a < front.len() {
                law_conf_count(front, a, a);
                assert(!is_conf(names[names.len() - 1]));
                assert forall|j: int| 0 <= j < front.len() && j != a implies !is_conf(
                    #[trigger] front[j],
                ) by {
                    assert(front[j] == names[j]);
                }
                assert(front[a] == names[a]);
            } else {
                assert forall|j: int| 0 <= j < front.len() implies !is_conf(
                    #[trigger] front[j],
                ) by {
                    assert(front[j] == names[j]);
                }
            }
        }
        if a < front.len() {
            assert(front[a] == names[a]);
        }
    }
    if forall|j: int| 0 <= j < names.len() ==> !is_conf(#[trigger] names[j]) {
        lemma_conf_none(names);
    }
}

proof fn lemma_conf_counts(names: Seq<Seq<char>>)
    ensures
        conf_count(names) <= names.len(),
    decreases names.len(),
{
    if names.len() > 0 {
        lemma_conf_counts(names.drop_last());
    }
}

proof fn lemma_conf_none(names: Seq<Seq<char>>)
    ensures
        conf_count(names) == 0 <==> forall|j: int|
            0 <= j < names.len() ==> !is_conf(#[trigger] names[j]),
    decreases names.len(),
{
    if names.len() > 0 {
        let front = names.drop_last();
        lemma_conf_none(front);
        if conf_count(names) == 0 {
            assert forall|j: int| 0 <= j < names.len() implies !is_conf(#[trigger] names[j]) by {
                if j < front.len() {
                    assert(front[j] == names[j]);
                }
            }
        }
        if forall|j: int| 0 <= j < names.len() ==> !is_conf(#[trigger] names[j]) {
            assert forall|j: int| 0 <= j < front.len() implies !is_conf(#[trigger] front[j]) by {
                assert(front[j] == names[j]);
            }
            assert(!is_conf(names[names.len() - 1]));
        }
    }
}

/// A line gives a key the value that follows it behind white space, and gives no other key anything.
pub proof fn law_line_value(key: Seq<char>, space: char, value: Seq<char>, other: Seq<char>)
    requires
        text::is_space(space),
        forall|i: int| 0 <= i < key.len() ==> !text::is_space(#[trigger] key[i]),
    ensures
        line_value(key + seq![space] + value, key) == Some(text::trimmed(value)),
        other != key ==> line_value(key + seq![space] + value, other) is None,
        line_value(key, other) is None,
{
    let line = key + seq![space] + value;
    lemma_space_at(key, space, value, 0);
    assert(line.take(key.len() as int) =~= key);
    assert(line.skip(key.len() as int + 1) =~= value);
    lemma_no_space(key, 0);
}

proof fn lemma_space_at(key: Seq<char>, space: char, value: Seq<char>, i: int)
    requires
        text::is_space(space),
        forall|i: int| 0 <= i < key.len() ==> !text::is_space(#[trigger] key[i]),
        0 <= i <= key.len(),
    ensures
        space_from(key + seq![space] + value, i) == key.len(),
    decreases key.len() - i,
{
    let line = key + seq![space] + value;
    if i < key.len() {
        assert(line[i] == key[i]);
        lemma_space_at(key, space, value, i + 1);
    } else {
        assert(line[i] == space);
    }
}

proof fn lemma_no_space(key: Seq<char>, i: int)
    requires
        forall|i: int| 0 <= i < key.len() ==> !text::is_space(#[trigger] key[i]),
        0 <= i <= key.len(),
    ensures
        space_from(key, i) == key.len(),
    decreases key.len() - i,
{
    if i < key.len() {
        lemma_no_space(key, i + 1);
    }
}

/// The last line that gives a key a value counts, whatever stands before and after it, and there is
/// no value exactly if no line gives one.
pub proof fn law_last_value(a: Seq<Seq<char>>, line: Seq<char>, b: Seq<Seq<char>>, key: Seq<char>)
    requires
        forall|i: int| 0 <= i < b.len() ==> line_value(#[trigger] b[i], key) is None,
    ensures
        line_value(line, key) is Some ==> last_value(a.push(line) + b, key) == line_value(line, key),
        last_value(b, key) is None,
    decreases b.len(),
{
    let all = a.push(line) + b;
    if b.len() > 0 {
        let front = b.drop_last();
        assert forall|i: int| 0 <= i < front.len() implies line_value(
            #[trigger] front[i],
            key,
        ) is None by {
            assert(front[i] == b[i]);
        }
        law_last_value(a, line, front, key);
        assert(line_value(b[b.len() - 1], key) is None);
        assert(all.last() == b.last());
        assert(all.drop_last() =~= a.push(line) + front);
    } else {
        assert(all =~= a.push(line));
        assert(all.last() == line);
    }
}

} // verus!
