//! Versions, archives and source packages.
use crate::paths;
use crate::text;
use vstd::prelude::*;

verus! {

/// The name of the package.
pub const NAME: &'static str = "bootc";

/// What a TOML value is, with the entries of a table in their order.
pub enum Toml {
    Text(Seq<char>),
    Table(Seq<(Seq<char>, Toml)>),
    /// Any other value, by a text that tells it from all others.
    Other(Seq<char>),
}

#[verifier::external_type_specification]
#[verifier::external_body]
pub struct ExValue(toml::Value);

#[verifier::external_type_specification]
#[verifier::external_body]
#[verifier::reject_recursive_types(K)]
#[verifier::reject_recursive_types(V)]
pub struct ExMap<K, V>(toml::map::Map<K, V>);

/// What a `toml::Value` holds.
pub uninterp spec fn toml_content(v: toml::Value) -> Toml;

/// The entries of a `toml::Table`, in the order it keeps them.
pub uninterp spec fn toml_entries(t: toml::map::Map<String, toml::Value>) -> Seq<(Seq<char>, Toml)>;

/// What `toml::from_str` reads a text as; `None` where it fails.
pub uninterp spec fn toml_parsed(text: Seq<char>) -> Option<Toml>;

/// What `toml::to_string` writes a `toml::Table` with these entries as; `None` where it fails.
pub uninterp spec fn toml_written(entries: Seq<(Seq<char>, Toml)>) -> Option<Seq<char>>;

/// What `chrono` writes a number of seconds since the Unix epoch as, in UTC.
pub uninterp spec fn utc_text(secs: i64, format: Seq<char>) -> Option<Seq<char>>;

/// Where a key stands among the entries from `i` on; their number where it does not.
pub open spec fn toml_key(t: Seq<(Seq<char>, Toml)>, key: Seq<char>, i: int) -> int
    decreases t.len() - i,
{
    if i >= t.len() {
        t.len() as int
    } else if t[i].0 == key {
        i
    } else {
        toml_key(t, key, i + 1)
    }
}

/// Whether the entries hold a key.
pub open spec fn toml_has(t: Seq<(Seq<char>, Toml)>, key: Seq<char>) -> bool {
    toml_key(t, key, 0) < t.len()
}

/// The value of a key.
pub open spec fn toml_at(t: Seq<(Seq<char>, Toml)>, key: Seq<char>) -> Toml {
    t[toml_key(t, key, 0)].1
}

/// The entries with the value of a key that they hold replaced.
pub open spec fn toml_with(
    t: Seq<(Seq<char>, Toml)>,
    key: Seq<char>,
    value: Toml,
) -> Seq<(Seq<char>, Toml)> {
    t.update(toml_key(t, key, 0), (key, value))
}

/// `toml::from_str` to a `Value`: its outcome depends on the text alone.
#[verifier::external_body]
fn toml_from_str(text: &str) -> (r: Option<toml::Value>)
    ensures
        match r {
            Some(v) => toml_parsed(text@) == Some(toml_content(v)),
            None => toml_parsed(text@) is None,
        },
{
    toml::from_str(text).ok()
}

/// `toml::Value::as_table_mut`: the table of a table, nothing of any other value.
#[verifier::external_body]
fn as_table_mut(v: &mut toml::Value) -> (r: Option<&mut toml::map::Map<String, toml::Value>>)
    ensures
        match r {
            Some(t) => toml_content(*old(v)) == Toml::Table(toml_entries(*t)) && toml_content(
                *final(v),
            ) == Toml::Table(toml_entries(*final(t))),
            None => toml_content(*old(v)) !is Table && toml_content(*final(v)) == toml_content(
                *old(v),
            ),
        },
{
    v.as_table_mut()
}

/// `toml::map::Map::get_mut`: the value of a key, to be changed in its place.
#[verifier::external_body]
fn get_mut<'a>(t: &'a mut toml::map::Map<String, toml::Value>, key: &str) -> (r: Option<
    &'a mut toml::Value,
>)
    ensures
        match r {
            Some(v) => toml_has(toml_entries(*old(t)), key@) && toml_at(
                toml_entries(*old(t)),
                key@,
            ) == toml_content(*v) && toml_entries(*final(t)) == toml_with(
                toml_entries(*old(t)),
                key@,
                toml_content(*final(v)),
            ),
            None => !toml_has(toml_entries(*old(t)), key@) && toml_entries(*final(t))
                == toml_entries(*old(t)),
        },
{
    t.get_mut(key)
}

/// `toml::map::Map::insert` of a string. The value of a key that is there is replaced in its place.
/// Where a new key goes depends on how the crate was built and is not said here.
#[verifier::external_body]
fn insert_text(t: &mut toml::map::Map<String, toml::Value>, key: &str, value: &str) -> (r: bool)
    ensures
        r == toml_has(toml_entries(*old(t)), key@),
        r ==> toml_entries(*final(t)) == toml_with(
            toml_entries(*old(t)),
            key@,
            Toml::Text(value@),
        ),
        !r ==> toml_entries(*final(t)).to_multiset() == toml_entries(
            *old(t),
        ).to_multiset().insert((key@, Toml::Text(value@))),
{
    t.insert(key.to_string(), toml::Value::String(value.to_string())).is_some()
}

/// `toml::to_string` of a `Table`: its outcome depends on the entries alone. It fails where one of
/// them cannot be written, such as a date that is none.
#[verifier::external_body]
fn table_text(t: &toml::map::Map<String, toml::Value>) -> (r: Option<String>)
    ensures
        text::opt_view(r) == toml_written(toml_entries(*t)),
{
    toml::to_string(t).ok()
}

/// `chrono::DateTime::from_timestamp` with `DateTime::format`: nothing for a time out of range,
/// else the time in UTC. It depends on the seconds and the format alone.
#[verifier::external_body]
fn format_utc(secs: i64, format: &str) -> (r: Option<String>)
    requires
        format@ == "%Y%m%d%H%M"@,
    ensures
        text::opt_view(r) == utc_text(secs, format@),
{
    chrono::DateTime::from_timestamp(secs, 0).map(|t| t.format(format).to_string())
}

/// Whether a document has the table of vendored sources, with their directory.
pub open spec fn has_vendor_directory(config: Toml) -> bool {
    config matches Toml::Table(top) && toml_has(top, "source"@) && (toml_at(
        top,
        "source"@,
    ) matches Toml::Table(source) && toml_has(source, "vendored-sources"@) && (toml_at(
        source,
        "vendored-sources"@,
    ) matches Toml::Table(vendored) && toml_has(vendored, "directory"@)))
}

/// The entries of the document with the directory of the vendored sources set to `vendor`.
pub open spec fn vendor_edited(config: Toml) -> Seq<(Seq<char>, Toml)> {
    let top = config->Table_0;
    let source = toml_at(top, "source"@)->Table_0;
    let vendored = toml_at(source, "vendored-sources"@)->Table_0;
    toml_with(
        top,
        "source"@,
        Toml::Table(
            toml_with(
                source,
                "vendored-sources"@,
                Toml::Table(toml_with(vendored, "directory"@, Toml::Text("vendor"@))),
            ),
        ),
    )
}

/// Why the configuration of vendored sources cannot be edited.
#[derive(Debug, Clone, Copy, PartialEq, Eq, Structural)]
pub enum VendorConfigError {
    /// It is no TOML document.
    Invalid,
    /// It has no directory of vendored sources.
    NoVendoredSources,
    /// It cannot be written.
    Unwritable,
}

/// The text of an edited document, given what writing it came to.
pub fn written_config(text: Option<String>) -> (r: Result<String, VendorConfigError>)
    ensures
        match text {
            Some(t) => r matches Ok(s) && s@ == t@,
            None => r == Err::<String, VendorConfigError>(VendorConfigError::Unwritable),
        },
{
    match text {
        Some(t) => Ok(t),
        None => Err(VendorConfigError::Unwritable),
    }
}

/// Sets the directory of the vendored sources in a document that was read.
pub fn edit_vendor_value(config: toml::Value) -> (r: Result<String, VendorConfigError>)
    ensures
        match r {
            Ok(s) => has_vendor_directory(toml_content(config)) && toml_written(
                vendor_edited(toml_content(config)),
            ) == Some(s@),
            Err(VendorConfigError::Invalid) => false,
            Err(VendorConfigError::NoVendoredSources) => !has_vendor_directory(
                toml_content(config),
            ),
            Err(VendorConfigError::Unwritable) => has_vendor_directory(toml_content(config))
                && toml_written(vendor_edited(toml_content(config))) is None,
        },
{
    let mut config = config;
    match as_table_mut(&mut config) {
        Some(top) => {
            let done = match get_mut(top, "source") {
                Some(source) => match as_table_mut(source) {
                    Some(source) => match get_mut(source, "vendored-sources") {
                        Some(vendored) => match as_table_mut(vendored) {
                            Some(vendored) => insert_text(vendored, "directory", "vendor"),
                            None => false,
                        },
                        None => false,
                    },
                    None => false,
                },
                None => false,
            };
            if done {
                written_config(table_text(top))
            } else {
                Err(VendorConfigError::NoVendoredSources)
            }
        },
        None => Err(VendorConfigError::NoVendoredSources),
    }
}

/// Makes the configuration of vendored sources refer to `vendor`.
pub fn edit_vendor_config(config: &str) -> (r: Result<String, VendorConfigError>)
    ensures
        match r {
            Ok(s) => toml_parsed(config@) matches Some(c) && has_vendor_directory(c)
                && toml_written(vendor_edited(c)) == Some(s@),
            Err(VendorConfigError::Invalid) => toml_parsed(config@) is None,
            Err(VendorConfigError::NoVendoredSources) => toml_parsed(config@) matches Some(c)
                && !has_vendor_directory(c),
            Err(VendorConfigError::Unwritable) => toml_parsed(config@) matches Some(c)
                && has_vendor_directory(c) && toml_written(vendor_edited(c)) is None,
        },
{
    match toml_from_str(config) {
        Some(v) => edit_vendor_value(v),
        None => Err(VendorConfigError::Invalid),
    }
}

/// The version that a tag names.
pub open spec fn version_of_tag(tag: Seq<char>) -> Seq<char> {
    text::replaced(text::stripped_start(text::trimmed(tag), 'v'), '-', '.')
}

/// The version that a tag names: without its leading `v`, with dots for dashes.
pub fn gitrev_to_version(v: &str) -> (r: String)
    ensures
        r@ == version_of_tag(v@),
{
    let v = text::trim_start_matches(text::trim(v), 'v');
    text::replace(v, '-', '.')
}

/// A version holds no dash.
pub proof fn law_version_without_dash(tag: Seq<char>)
    ensures
        !version_of_tag(tag).contains('-'),
{
}

/// The version of a commit without a tag: the time first, so that what is newer sorts as newer, then
/// the first ten characters of the commit.
pub open spec fn version_of_commit(commit: Seq<char>, timestamp: Seq<char>) -> Seq<char> {
    timestamp + ".g"@ + if commit.len() > 10 {
        commit.take(10)
    } else {
        commit
    }
}

/// The version of a commit without a tag.
pub fn commit_version(commit: &str, timestamp: &str) -> (r: String)
    ensures
        r@ == version_of_commit(commit@, timestamp@),
{
    let n = commit.unicode_len();
    if n > 10 {
        let abbreviated = commit.substring_char(0, 10);
        assert(abbreviated@ =~= commit@.take(10));
        text::concat3(timestamp, ".g", abbreviated)
    } else {
        text::concat3(timestamp, ".g", commit)
    }
}

/// Why the time of a commit cannot be used.
#[derive(Debug, Clone, Copy, PartialEq, Eq, Structural)]
pub enum TimestampError {
    NotANumber,
    OutOfRange,
}

/// The time of a commit up to the minute, from the seconds that `git show` printed.
pub fn git_timestamp(output: &str) -> (r: Result<String, TimestampError>)
    ensures
        match text::parsed_i64(text::trimmed(output@)) {
            None => r == Err::<String, TimestampError>(TimestampError::NotANumber),
            Some(secs) => match r {
                Ok(s) => utc_text(secs as i64, "%Y%m%d%H%M"@) == Some(s@),
                Err(e) => e == TimestampError::OutOfRange && utc_text(
                    secs as i64,
                    "%Y%m%d%H%M"@,
                ) is None,
            },
        },
{
    match text::parse_i64(text::trim(output)) {
        None => Err(TimestampError::NotANumber),
        Some(secs) => match format_utc(secs, "%Y%m%d%H%M") {
            Some(s) => Ok(s),
            None => Err(TimestampError::OutOfRange),
        },
    }
}

/// The version of the sources: that of the tag where there is one, else that of the commit.
pub fn gitrev(tag: Option<&str>, commit: &str, commit_time: &str) -> (r: Result<
    String,
    TimestampError,
>)
    ensures
        match tag {
            Some(t) => r matches Ok(v) && v@ == version_of_tag(t@),
            None => match text::parsed_i64(text::trimmed(commit_time@)) {
                None => r == Err::<String, TimestampError>(TimestampError::NotANumber),
                Some(secs) => match utc_text(secs as i64, "%Y%m%d%H%M"@) {
                    Some(t) => r matches Ok(v) && v@ == version_of_commit(commit@, t),
                    None => r == Err::<String, TimestampError>(TimestampError::OutOfRange),
                },
            },
        },
{
    match tag {
        Some(t) => Ok(gitrev_to_version(t)),
        None => match git_timestamp(commit_time) {
            Ok(t) => Ok(commit_version(commit, t.as_str())),
            Err(e) => Err(e),
        },
    }
}

/// The time of a commit in seconds since the Unix epoch, as `git log` printed it.
pub fn source_date_epoch(output: &str) -> (r: Option<u64>)
    ensures
        match r {
            Some(n) => text::parsed_unsigned(text::trimmed(output@), u64::MAX as nat) == Some(
                n as nat,
            ),
            None => text::parsed_unsigned(text::trimmed(output@), u64::MAX as nat) is None,
        },
{
    text::parse_unsigned(text::trim(output), u64::MAX)
}

/// The files that a package is made of.
pub struct PackagePaths {
    /// The directory in the archive.
    pub prefix: String,
    /// The archive of the sources.
    pub tar: String,
    /// The compressed archive.
    pub source: String,
    /// The archive of the vendored sources.
    pub vendor: String,
}

/// The files of the package of a version.
pub fn package_paths(version: &str) -> (r: PackagePaths)
    ensures
        ({
            let namev = NAME@ + "-"@ + version@;
            &&& r.prefix@ == namev + "/"@
            &&& r.tar@ == paths::joined("target"@, namev + ".tar"@)
            &&& r.source@ == r.tar@ + ".zstd"@
            &&& r.vendor@ == paths::joined("target"@, namev + "-vendor.tar.zstd"@)
        }),
{
    let namev = text::concat3(NAME, "-", version);
    let prefix = text::concat2(namev.as_str(), "/");
    let tar_name = text::concat2(namev.as_str(), ".tar");
    let vendor_name = text::concat2(namev.as_str(), "-vendor.tar.zstd");
    let tar = paths::join("target", tar_name.as_str());
    let vendor = paths::join("target", vendor_name.as_str());
    let source = text::concat2(tar.as_str(), ".zstd");
    PackagePaths { prefix, tar, source, vendor }
}

/// The command that archives the sources.
pub fn archive_args(p: &PackagePaths) -> (r: Vec<String>)
    ensures
        text::views(r@) == seq![
            "git"@,
            "archive"@,
            "--format=tar"@,
            "--prefix="@ + p.prefix@,
            "-o"@,
            p.tar@,
            "HEAD"@,
        ],
{
    let prefix = text::concat2("--prefix=", p.prefix.as_str());
    text::owned(
        &vec!["git", "archive", "--format=tar", prefix.as_str(), "-o", p.tar.as_str(), "HEAD"],
    )
}

/// The command that archives the vendored sources.
pub fn vendor_args(p: &PackagePaths) -> (r: Vec<String>)
    ensures
        text::views(r@) == seq![
            "cargo"@,
            "vendor-filterer"@,
            "--prefix=vendor"@,
            "--format=tar.zstd"@,
            p.vendor@,
        ],
{
    text::owned(
        &vec![
            "cargo",
            "vendor-filterer",
            "--prefix=vendor",
            "--format=tar.zstd",
            p.vendor.as_str(),
        ],
    )
}

/// The command that adds the vendor configuration to the archive, with fixed owner, order and time.
pub fn append_config_args(p: &PackagePaths, directory: &str, epoch: u64) -> (r: Vec<String>)
    ensures
        text::views(r@) == seq![
            "tar"@,
            "-r"@,
            "-C"@,
            directory@,
            "--sort=name"@,
            "--owner=0"@,
            "--group=0"@,
            "--numeric-owner"@,
            "--pax-option=exthdr.name=%d/PaxHeaders/%f,delete=atime,delete=ctime"@,
            "--mtime=@"@ + text::decimal(epoch as nat),
            "--transform=s,^,"@ + p.prefix@ + ".cargo/,"@,
            "-f"@,
            p.tar@,
            "vendor-config.toml"@,
        ],
{
    let seconds = text::decimal_text(epoch);
    let mtime = text::concat2("--mtime=@", seconds.as_str());
    let transform = text::concat3("--transform=s,^,", p.prefix.as_str(), ".cargo/,");
    text::owned(
        &vec![
            "tar",
            "-r",
            "-C",
            directory,
            "--sort=name",
            "--owner=0",
            "--group=0",
            "--numeric-owner",
            "--pax-option=exthdr.name=%d/PaxHeaders/%f,delete=atime,delete=ctime",
            mtime.as_str(),
            transform.as_str(),
            "-f",
            p.tar.as_str(),
            "vendor-config.toml",
        ],
    )
}

/// The command that compresses the archive.
pub fn compress_args(p: &PackagePaths) -> (r: Vec<String>)
    ensures
        text::views(r@) == seq!["zstd"@, "--rm"@, "-f"@, p.tar@, "-o"@, p.source@],
{
    text::owned(&vec!["zstd", "--rm", "-f", p.tar.as_str(), "-o", p.source.as_str()])
}

/// A line of the spec file with the version and, where they are given, the two sources put in.
pub open spec fn spec_line(
    line: Seq<char>,
    version: Seq<char>,
    note: Seq<char>,
    sources: Option<(Seq<char>, Seq<char>)>,
) -> Seq<char> {
    if "Version:"@.is_prefix_of(line) {
        note + "\nVersion: "@ + version
    } else {
        match sources {
            Some((a, b)) => if "Source0"@.is_prefix_of(line) {
                "Source0: "@ + a
            } else if "Source1"@.is_prefix_of(line) {
                "Source1: "@ + b
            } else {
                line
            },
            None => line,
        }
    }
}

/// Lines of the spec file, each ended by a line feed.
pub open spec fn spec_text(
    lines: Seq<Seq<char>>,
    version: Seq<char>,
    note: Seq<char>,
    sources: Option<(Seq<char>, Seq<char>)>,
) -> Seq<char>
    decreases lines.len(),
{
    if lines.len() == 0 {
        Seq::empty()
    } else {
        spec_text(lines.drop_last(), version, note, sources) + spec_line(
            lines.last(),
            version,
            note,
            sources,
        ) + "\n"@
    }
}

/// The view of two optional sources.
pub open spec fn sources_view(sources: Option<(&str, &str)>) -> Option<(Seq<char>, Seq<char>)> {
    match sources {
        Some((a, b)) => Some((a@, b@)),
        None => None,
    }
}

/// Puts the version and, where they are given, the sources into a spec file. `note` is the comment
/// above the version.
pub fn rewrite_spec(
    content: &str,
    version: &str,
    note: &str,
    sources: Option<(&str, &str)>,
) -> (r: String)
    ensures
        r@ == spec_text(text::lines_of(content@), version@, note@, sources_view(sources)),
{
    let lines = text::lines(content);
    let mut r = String::new();
    let mut i: usize = 0;
    let ghost all = text::lines_of(content@);
    let ghost named = sources_view(sources);
    while i < lines.len()
        invariant
            i <= lines@.len(),
            text::slice_views(lines@) == all,
            named == sources_view(sources),
            r@ == spec_text(all.take(i as int), version@, note@, named),
        decreases lines@.len() - i,
    {
        let line = lines[i];
        proof {
            assert(all[i as int] == line@);
            assert(all.take(i + 1).drop_last() =~= all.take(i as int));
            assert(all.take(i + 1).last() == line@);
        }
        let out = if text::starts_with(line, "Version:") {
            text::concat3(note, "\nVersion: ", version)
        } else {
            match sources {
                Some((a, b)) => if text::starts_with(line, "Source0") {
                    text::concat2("Source0: ", a)
                } else if text::starts_with(line, "Source1") {
                    text::concat2("Source1: ", b)
                } else {
                    line.to_owned()
                },
                None => line.to_owned(),
            }
        };
        r.append(out.as_str());
        r.append("\n");
        i += 1;
    }
    assert(all.take(i as int) =~= all);
    r
}

/// The spec file of the packaged sources; nothing where one of the archives has no file name.
pub fn update_spec(content: &str, version: &str, p: &PackagePaths) -> (r: Option<String>)
    ensures
        match (paths::last_component(p.source@), paths::last_component(p.vendor@)) {
            (Some(a), Some(b)) => r matches Some(s) && s@ == spec_text(
                text::lines_of(content@),
                version@,
                "# Replaced by cargo xtask spec"@,
                Some((a, b)),
            ),
            _ => r is None,
        },
{
    match (paths::file_name(p.source.as_str()), paths::file_name(p.vendor.as_str())) {
        (Some(a), Some(b)) => Some(
            rewrite_spec(content, version, "# Replaced by cargo xtask spec", Some((a, b))),
        ),
        _ => None,
    }
}

/// The spec file of the source package.
pub fn srpm_spec(content: &str, version: &str) -> (r: String)
    ensures
        r@ == spec_text(
            text::lines_of(content@),
            version@,
            "# Replaced by cargo xtask package-srpm"@,
            None,
        ),
{
    rewrite_spec(content, version, "# Replaced by cargo xtask package-srpm", None)
}

/// Whether a file is a source package.
pub fn is_srpm(name: &str) -> (r: bool)
    ensures
        r == ".src.rpm"@.is_suffix_of(name@),
{
    text::ends_with(name, ".src.rpm")
}

/// The command that builds the source package in a directory.
pub fn rpmbuild_args(directory: &str) -> (r: Vec<String>)
    ensures
        text::views(r@) == seq![
            "rpmbuild"@,
            "--define"@,
            "_sourcedir "@ + directory@,
            "--define"@,
            "_specdir "@ + directory@,
            "--define"@,
            "_builddir "@ + directory@,
            "--define"@,
            "_srcrpmdir "@ + directory@,
            "--define"@,
            "_rpmdir "@ + directory@,
            "--define"@,
            "_buildrootdir "@ + directory@ + "/.build"@,
            "-bs"@,
            "bootc.spec"@,
        ],
{
    let a = text::concat2("_sourcedir ", directory);
    let b = text::concat2("_specdir ", directory);
    let c = text::concat2("_builddir ", directory);
    let d = text::concat2("_srcrpmdir ", directory);
    let e = text::concat2("_rpmdir ", directory);
    let f = text::concat3("_buildrootdir ", directory, "/.build");
    text::owned(
        &vec![
            "rpmbuild",
            "--define",
            a.as_str(),
            "--define",
            b.as_str(),
            "--define",
            c.as_str(),
            "--define",
            d.as_str(),
            "--define",
            e.as_str(),
            "--define",
            f.as_str(),
            "-bs",
            "bootc.spec",
        ],
    )
}

/// The first source package among the files of a directory.
pub fn find_srpm(names: &Vec<String>) -> (r: Option<usize>)
    ensures
        match r {
            Some(i) => i < names@.len() && ".src.rpm"@.is_suffix_of(names@[i as int]@) && forall|
                j: int,
            |
                0 <= j < i ==> !".src.rpm"@.is_suffix_of((#[trigger] names@[j])@),
            None => forall|j: int|
                0 <= j < names@.len() ==> !".src.rpm"@.is_suffix_of((#[trigger] names@[j])@),
        },
{
    let mut i: usize = 0;
    while i < names.len()
        invariant
            i <= names@.len(),
            forall|j: int| 0 <= j < i ==> !".src.rpm"@.is_suffix_of((#[trigger] names@[j])@),
        decreases names@.len() - i,
    {
        if is_srpm(names[i].as_str()) {
            return Some(i);
        }
        i += 1;
    }
    None
}

/// Where a source package is moved from and to.
pub fn srpm_move(directory: &str, name: &str) -> (r: (String, String))
    ensures
        r.0@ == paths::joined(directory@, name@),
        r.1@ == paths::joined("target"@, name@),
{
    (paths::join(directory, name), paths::join("target", name))
}

/// The schemas that are kept in the documentation: what each describes and the file it goes to.
pub fn schemas() -> (r: Vec<(String, String)>)
    ensures
        r@.map_values(|p: (String, String)| (p.0@, p.1@)) == seq![
            ("host"@, "docs/src/host-v1.schema.json"@),
            ("progress"@, "docs/src/progress-v0.schema.json"@),
        ],
{
    let r = vec![
        ("host".to_owned(), "docs/src/host-v1.schema.json".to_owned()),
        ("progress".to_owned(), "docs/src/progress-v0.schema.json".to_owned()),
    ];
    assert(r@.map_values(|p: (String, String)| (p.0@, p.1@)) =~= seq![
        ("host"@, "docs/src/host-v1.schema.json"@),
        ("progress"@, "docs/src/progress-v0.schema.json"@),
    ]);
    r
}

/// The command that prints a schema.
pub fn schema_args(of: &str) -> (r: Vec<String>)
    ensures
        text::views(r@) == seq![
            "cargo"@,
            "run"@,
            "-q"@,
            "--"@,
            "internals"@,
            "print-json-schema"@,
            "--of="@ + of@,
        ],
{
    let arg = text::concat2("--of=", of);
    text::owned(&vec!["cargo", "run", "-q", "--", "internals", "print-json-schema", arg.as_str()])
}

proof fn lemma_toml_key(t: Seq<(Seq<char>, Toml)>, key: Seq<char>, i: int)
    requires
        0 <= i <= t.len(),
    ensures
        i <= toml_key(t, key, i) <= t.len(),
        toml_key(t, key, i) < t.len() ==> t[toml_key(t, key, i)].0 == key,
        forall|j: int| i <= j < toml_key(t, key, i) ==> (#[trigger] t[j]).0 != key,
    decreases t.len() - i,
{
    if i < t.len() && t[i].0 != key {
        lemma_toml_key(t, key, i + 1);
    }
}

/// A table has under a key what its first entry of that key holds.
pub proof fn law_toml_at(t: Seq<(Seq<char>, Toml)>, key: Seq<char>, i: int)
    ensures
        toml_has(t, key) <==> exists|j: int| 0 <= j < t.len() && (#[trigger] t[j]).0 == key,
        0 <= i < t.len() && t[i].0 == key && (forall|j: int|
            0 <= j < i ==> (#[trigger] t[j]).0 != key) ==> toml_at(t, key) == t[i].1,
{
    lemma_toml_key(t, key, 0);
    let k = toml_key(t, key, 0);
    if k < t.len() {
        assert(t[k].0 == key);
    }
}

/// What is set under a key that is there is found there; the keys keep their places, and every other
/// key keeps what it has.
pub proof fn law_toml_with(
    t: Seq<(Seq<char>, Toml)>,
    key: Seq<char>,
    value: Toml,
    other: Seq<char>,
)
    requires
        toml_has(t, key),
    ensures
        ({
            let u = toml_with(t, key, value);
            &&& u.len() == t.len()
            &&& forall|j: int| 0 <= j < t.len() ==> (#[trigger] u[j]).0 == t[j].0
            &&& toml_has(u, key) && toml_at(u, key) == value
            &&& toml_has(u, other) <==> toml_has(t, other)
            &&& other != key && toml_has(t, other) ==> toml_at(u, other) == toml_at(t, other)
        }),
{
    let u = toml_with(t, key, value);
    lemma_toml_key(t, key, 0);
    lemma_toml_key(u, key, 0);
    lemma_toml_key(t, other, 0);
    lemma_toml_key(u, other, 0);
    let k = toml_key(t, key, 0);
    let m = toml_key(u, key, 0);
    let a = toml_key(t, other, 0);
    let b = toml_key(u, other, 0);
    assert forall|j: int| 0 <= j < t.len() implies (#[trigger] u[j]).0 == t[j].0 by {}
    assert(u[k].0 == key);
    if m < k {
        assert(t[m].0 == u[m].0);
    }
    assert(m == k);
    if a < t.len() {
        assert(u[a].0 == t[a].0);
        if b < a {
            assert(t[b].0 == u[b].0);
        }
    }
    if b < u.len() {
        assert(t[b].0 == u[b].0);
        if a < b {
            assert(u[a].0 == t[a].0);
        }
    }
    assert(a == b);
}

/// After the edit the vendored sources are looked for in `vendor`, and all else that the
/// configuration says stays as it was, on each of the three levels.
pub proof fn law_vendor_edited(config: Toml, other: Seq<char>)
    requires
        has_vendor_directory(config),
    ensures
        ({
            let top = config->Table_0;
            let source = toml_at(top, "source"@)->Table_0;
            let vendored = toml_at(source, "vendored-sources"@)->Table_0;
            let new_top = vendor_edited(config);
            let new_source = toml_at(new_top, "source"@)->Table_0;
            let new_vendored = toml_at(new_source, "vendored-sources"@)->Table_0;
            &&& has_vendor_directory(Toml::Table(new_top))
            &&& toml_at(new_vendored, "directory"@) == Toml::Text("vendor"@)
            &&& toml_has(new_top, other) <==> toml_has(top, other)
            &&& other != "source"@ && toml_has(top, other) ==> toml_at(new_top, other) == toml_at(
                top,
                other,
            )
            &&& toml_has(new_source, other) <==> toml_has(source, other)
            &&& other != "vendored-sources"@ && toml_has(source, other) ==> toml_at(
                new_source,
                other,
            ) == toml_at(source, other)
            &&& toml_has(new_vendored, other) <==> toml_has(vendored, other)
            &&& other != "directory"@ && toml_has(vendored, other) ==> toml_at(new_vendored, other)
                == toml_at(vendored, other)
        }),
{
    let top = config->Table_0;
    let source = toml_at(top, "source"@)->Table_0;
    let vendored = toml_at(source, "vendored-sources"@)->Table_0;
    let v = toml_with(vendored, "directory"@, Toml::Text("vendor"@));
    let s = toml_with(source, "vendored-sources"@, Toml::Table(v));
    law_toml_with(vendored, "directory"@, Toml::Text("vendor"@), other);
    law_toml_with(source, "vendored-sources"@, Toml::Table(v), other);
    law_toml_with(top, "source"@, Toml::Table(s), other);
}

/// A configuration without any of the three levels has no directory of vendored sources.
pub proof fn law_no_vendor_directory(top: Seq<(Seq<char>, Toml)>, source: Seq<(Seq<char>, Toml)>)
    ensures
        !toml_has(top, "source"@) ==> !has_vendor_directory(Toml::Table(top)),
        toml_has(top, "source"@) && !(toml_at(top, "source"@) is Table) ==> !has_vendor_directory(
            Toml::Table(top),
        ),
        toml_has(top, "source"@) && toml_at(top, "source"@) == Toml::Table(source) && !toml_has(
            source,
            "vendored-sources"@,
        ) ==> !has_vendor_directory(Toml::Table(top)),
        toml_has(top, "source"@) && toml_at(top, "source"@) == Toml::Table(source) && toml_has(
            source,
            "vendored-sources"@,
        ) && toml_at(source, "vendored-sources"@) == Toml::Table(Seq::empty())
            ==> !has_vendor_directory(Toml::Table(top)),
{
}

proof fn lemma_leading(m: nat, s: Seq<char>)
    requires
        s.len() > 0 ==> s[0] != 'v',
    ensures
        text::stripped_start(Seq::new(m, |i: int| 'v') + s, 'v') == s,
    decreases m,
{
    let all = Seq::new(m, |i: int| 'v') + s;
    if m > 0 {
        let rest = Seq::new((m - 1) as nat, |i: int| 'v') + s;
        assert(all[0] == 'v');
        assert(all.drop_first() =~= rest);
        lemma_leading((m - 1) as nat, s);
    } else {
        assert(all =~= s);
    }
}

/// A tag gives its version without the `v` at its start and with dots for dashes, whatever white
/// space is around it.
pub proof fn law_version_of_tag(a: Seq<char>, m: nat, version: Seq<char>, b: Seq<char>, i: int)
    requires
        forall|k: int| 0 <= k < a.len() ==> text::is_space(#[trigger] a[k]),
        forall|k: int| 0 <= k < b.len() ==> text::is_space(#[trigger] b[k]),
        version.len() > 0,
        version[0] != 'v',
        !text::is_space(version[0]),
        !text::is_space(version.last()),
        0 <= i < version.len(),
    ensures
        ({
            let r = version_of_tag(a + (Seq::new(m, |k: int| 'v') + version) + b);
            &&& r.len() == version.len()
            &&& version[i] == '-' ==> r[i] == '.'
            &&& version[i] != '-' ==> r[i] == version[i]
        }),
{
    let s = Seq::new(m, |k: int| 'v') + version;
    text::law_spaces('v');
    assert(s[0] == 'v' || s[0] == version[0]);
    assert(s.last() == version.last());
    text::law_trimmed(a, s, b);
    lemma_leading(m, version);
    text::law_replaced(version, '-', '.', i);
}

/// A commit without a tag gives its time and the start of its name, of ten characters at most.
pub proof fn law_version_of_commit(start: Seq<char>, rest: Seq<char>, timestamp: Seq<char>)
    ensures
        start.len() == 10 ==> version_of_commit(start + rest, timestamp) == timestamp + ".g"@ + start,
        start.len() <= 10 ==> version_of_commit(start, timestamp) == timestamp + ".g"@ + start,
{
    if start.len() == 10 {
        assert((start + rest).take(10) =~= start);
        if rest.len() == 0 {
            assert(start + rest =~= start);
        }
    }
}

/// A line of the package's description that gives its version gives the new one, behind a note. Where
/// sources are named, the lines of the two sources name them. Every other line stays.
pub proof fn law_spec_line(
    rest: Seq<char>,
    line: Seq<char>,
    version: Seq<char>,
    note: Seq<char>,
    a: Seq<char>,
    b: Seq<char>,
    sources: Option<(Seq<char>, Seq<char>)>,
)
    ensures
        spec_line("Version:"@ + rest, version, note, sources) == note + "\nVersion: "@ + version,
        spec_line("Source0"@ + rest, version, note, Some((a, b))) == "Source0: "@ + a,
        spec_line("Source1"@ + rest, version, note, Some((a, b))) == "Source1: "@ + b,
        !"Version:"@.is_prefix_of(line) ==> spec_line(line, version, note, None) == line,
        !"Version:"@.is_prefix_of(line) && !"Source0"@.is_prefix_of(line)
            && !"Source1"@.is_prefix_of(line) ==> spec_line(line, version, note, sources) == line,
{
    text::law_taken_off(rest, "Version:"@);
    text::law_taken_off(rest, "Source0"@);
    text::law_taken_off(rest, "Source1"@);
    reveal_strlit("Version:");
    reveal_strlit("Source0");
    reveal_strlit("Source1");
    let zero = "Source0"@ + rest;
    let one = "Source1"@ + rest;
    assert(zero[0] == 'S' && one[0] == 'S' && one[6] == '1');
    if "Version:"@.is_prefix_of(zero) {
        assert("Version:"@[0] == zero.subrange(0, 8)[0]);
    }
    if "Version:"@.is_prefix_of(one) {
        assert("Version:"@[0] == one.subrange(0, 8)[0]);
    }
    if "Source0"@.is_prefix_of(one) {
        assert("Source0"@[6] == one.subrange(0, 7)[6]);
    }
}

/// The description is rewritten line by line, in their order.
pub proof fn law_spec_text(
    x: Seq<Seq<char>>,
    y: Seq<Seq<char>>,
    line: Seq<char>,
    version: Seq<char>,
    note: Seq<char>,
    sources: Option<(Seq<char>, Seq<char>)>,
)
    ensures
        spec_text(x + y, version, note, sources) == spec_text(x, version, note, sources) + spec_text(
            y,
            version,
            note,
            sources,
        ),
        spec_text(seq![line], version, note, sources) == spec_line(line, version, note, sources)
            + "\n"@,
    decreases y.len(),
{
    assert(seq![line].drop_last() =~= Seq::<Seq<char>>::empty());
    reveal_with_fuel(spec_text, 2);
    assert(spec_text(seq![line], version, note, sources) =~= spec_line(line, version, note, sources)
        + "\n"@);
    if y.len() == 0 {
        assert(x + y =~= x);
        assert(spec_text(x, version, note, sources) =~= spec_text(x, version, note, sources)
            + spec_text(y, version, note, sources));
    } else {
        law_spec_text(x, y.drop_last(), line, version, note, sources);
        assert((x + y).drop_last() =~= x + y.drop_last());
        assert((x + y).last() == y.last());
        assert(spec_text(x + y, version, note, sources) =~= spec_text(x, version, note, sources)
            + spec_text(y, version, note, sources));
    }
}

} // verus!
