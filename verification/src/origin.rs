//! What is recorded of a deployment: its origin file and its system's release.
use crate::seqs;
use crate::text;
use vstd::prelude::*;
use vstd::utf8::*;

verus! {

/// The section of an origin file that tells of booting.
pub const ORIGIN_KEY_BOOT: &'static str = "boot";

/// The digest of the kernel and the initial ramdisk, in that section.
pub const ORIGIN_KEY_BOOT_DIGEST: &'static str = "digest";

#[verifier::external_type_specification]
#[verifier::external_body]
pub struct ExIni(tini::Ini);

/// The values of a `tini::Ini`, by section and key.
pub uninterp spec fn ini_values(i: tini::Ini) -> Map<(Seq<char>, Seq<char>), Seq<char>>;

/// What `tini::Ini::from_string` reads a text as; `None` where it fails.
pub uninterp spec fn ini_parsed(text: Seq<char>) -> Option<Map<(Seq<char>, Seq<char>), Seq<char>>>;

/// What `composefs_boot`'s `OsReleaseInfo` reads as the value of a key.
pub uninterp spec fn os_release_value(text: Seq<char>, key: Seq<char>) -> Option<Seq<char>>;

/// `tini::Ini::from_string`: its outcome depends on the text alone.
#[verifier::external_body]
fn ini_from_string(text: &str) -> (r: Option<tini::Ini>)
    ensures
        match r {
            Some(i) => ini_parsed(text@) == Some(ini_values(i)),
            None => ini_parsed(text@) is None,
        },
{
    tini::Ini::from_string(text).ok()
}

/// `tini::Ini::get` of a `String`, which every value is.
#[verifier::external_body]
fn ini_get(i: &tini::Ini, section: &str, key: &str) -> (r: Option<String>)
    ensures
        text::opt_view(r) == if ini_values(*i).dom().contains((section@, key@)) {
            Some(ini_values(*i)[(section@, key@)])
        } else {
            None
        },
{
    i.get(section, key)
}

/// `OsReleaseInfo::parse` with `get_value` for one key: it depends on the text and the key alone.
#[verifier::external_body]
fn os_release_get(text: &str, key: &str) -> (r: Option<String>)
    ensures
        text::opt_view(r) == os_release_value(text@, key@),
{
    composefs_boot::os_release::OsReleaseInfo::parse(text).get_value(&[key])
}

/// The first that is there of two values.
pub open spec fn first_of(a: Option<Seq<char>>, b: Option<Seq<char>>) -> Option<Seq<char>> {
    match a {
        Some(v) => Some(v),
        None => b,
    }
}

/// `OsReleaseInfo::parse` with `get_pretty_name`: the value of `PRETTY_NAME`, else of `NAME`, else
/// of `ID`.
#[verifier::external_body]
fn os_release_pretty_name(text: &str) -> (r: Option<String>)
    ensures
        text::opt_view(r) == first_of(
            os_release_value(text@, "PRETTY_NAME"@),
            first_of(os_release_value(text@, "NAME"@), os_release_value(text@, "ID"@)),
        ),
{
    composefs_boot::os_release::OsReleaseInfo::parse(text).get_pretty_name()
}

/// `OsReleaseInfo::parse` with `get_version`: the value of `VERSION_ID`, else of `VERSION`.
#[verifier::external_body]
fn os_release_version(text: &str) -> (r: Option<String>)
    ensures
        text::opt_view(r) == first_of(
            os_release_value(text@, "VERSION_ID"@),
            os_release_value(text@, "VERSION"@),
        ),
{
    composefs_boot::os_release::OsReleaseInfo::parse(text).get_version()
}

/// `std::str::from_utf8`: the text that the bytes encode, nothing of bytes that encode none.
#[verifier::external_body]
pub(crate) fn text_of(bytes: &[u8]) -> (r: Option<&str>)
    ensures
        match r {
            Some(s) => valid_utf8(bytes@) && s@ == decode_utf8(bytes@),
            None => !valid_utf8(bytes@),
        },
{
    std::str::from_utf8(bytes).ok()
}

/// The boot digest that an origin file records. The first part tells whether it can be read.
pub open spec fn recorded_digest(origin: Seq<char>) -> Option<Option<Seq<char>>> {
    match ini_parsed(origin) {
        Some(values) => Some(
            if values.dom().contains((ORIGIN_KEY_BOOT@, ORIGIN_KEY_BOOT_DIGEST@)) {
                Some(values[(ORIGIN_KEY_BOOT@, ORIGIN_KEY_BOOT_DIGEST@)])
            } else {
                None
            },
        ),
        None => None,
    }
}

/// The boot digest that an origin file records, if it does; an error where it cannot be read.
pub fn boot_digest_in(origin: &str) -> (r: Result<Option<String>, ()>)
    ensures
        match r {
            Ok(d) => recorded_digest(origin@) == Some(text::opt_view(d)),
            Err(_) => recorded_digest(origin@) is None,
        },
{
    match ini_from_string(origin) {
        Some(ini) => Ok(ini_get(&ini, ORIGIN_KEY_BOOT, ORIGIN_KEY_BOOT_DIGEST)),
        None => Err(()),
    }
}

/// A deployment and the boot digest that is recorded of it.
pub struct BootRecord {
    pub deployment: String,
    pub digest: Option<String>,
}

/// Whether a record has a digest.
pub open spec fn has_digest(r: BootRecord, digest: Seq<char>) -> bool {
    text::opt_view(r.digest) == Some(digest)
}

/// The deployments with a digest, in their order.
pub open spec fn sharing(records: Seq<BootRecord>, digest: Seq<char>) -> Seq<Seq<char>> {
    records.filter(|r: BootRecord| has_digest(r, digest)).map_values(
        |r: BootRecord| r.deployment@,
    )
}

/// All deployments that have this boot digest; nothing where none has.
pub fn same_digest(records: &Vec<BootRecord>, digest: &str) -> (r: Option<Vec<String>>)
    ensures
        match r {
            Some(v) => v@.len() > 0 && text::views(v@) == sharing(records@, digest@),
            None => sharing(records@, digest@).len() == 0,
        },
{
    let mut found: Vec<String> = Vec::new();
    let mut i: usize = 0;
    let ghost p = |r: BootRecord| has_digest(r, digest@);
    let ghost f = |r: BootRecord| r.deployment@;
    assert(records@.take(0).filter(p) =~= Seq::empty()) by {
        reveal(Seq::filter);
    }
    while i < records.len()
        invariant
            i <= records@.len(),
            p == |r: BootRecord| has_digest(r, digest@),
            f == |r: BootRecord| r.deployment@,
            text::views(found@) == records@.take(i as int).filter(p).map_values(f),
        decreases records@.len() - i,
    {
        let record = &records[i];
        proof {
            crate::seqs::lemma_filter_take(records@, i as int, p);
        }
        let equal = match &record.digest {
            Some(d) => text::same(d.as_str(), digest),
            None => false,
        };
        assert(equal == p(*record));
        let ghost before = found@;
        if equal {
            text::push(&mut found, record.deployment.as_str());
            assert(text::views(found@) =~= records@.take(i + 1).filter(p).map_values(f));
        }
        i += 1;
    }
    assert(records@.take(i as int) =~= records@);
    assert(text::views(found@).len() == found@.len());
    if found.len() == 0 {
        None
    } else {
        Some(found)
    }
}

/// A deployment and the text of its origin file.
pub struct Origin {
    pub deployment: String,
    pub text: String,
}

/// The deployments that record a digest, in their order.
pub open spec fn duplicates(origins: Seq<Origin>, digest: Seq<char>) -> Seq<Seq<char>> {
    origins.filter(|o: Origin| recorded_digest(o.text@) == Some(Some(digest))).map_values(
        |o: Origin| o.deployment@,
    )
}

/// Finds all deployments whose kernel and initial ramdisk have this digest; nothing where there are
/// none. Every origin file must be readable: else the place of the first that is not comes back as the
/// error.
pub fn find_vmlinuz_initrd_duplicates(origins: &Vec<Origin>, digest: &str) -> (r: Result<
    Option<Vec<String>>,
    usize,
>)
    ensures
        match r {
            Ok(Some(v)) => v@.len() > 0 && text::views(v@) == duplicates(origins@, digest@),
            Ok(None) => duplicates(origins@, digest@).len() == 0,
            Err(i) => i < origins@.len() && recorded_digest(origins@[i as int].text@) is None
                && forall|j: int|
                0 <= j < i ==> recorded_digest((#[trigger] origins@[j]).text@) is Some,
        },
        r is Ok <==> forall|i: int|
            0 <= i < origins@.len() ==> recorded_digest((#[trigger] origins@[i]).text@) is Some,
{
    let mut records: Vec<BootRecord> = Vec::new();
    let mut i: usize = 0;
    let ghost p = |o: Origin| recorded_digest(o.text@) == Some(Some(digest@));
    let ghost q = |r: BootRecord| has_digest(r, digest@);
    let ghost f = |o: Origin| o.deployment@;
    let ghost g = |r: BootRecord| r.deployment@;
    assert(origins@.take(0).filter(p).map_values(f) =~= records@.filter(q).map_values(g)) by {
        reveal(Seq::filter);
    }
    while i < origins.len()
        invariant
            i <= origins@.len(),
            p == |o: Origin| recorded_digest(o.text@) == Some(Some(digest@)),
            q == |r: BootRecord| has_digest(r, digest@),
            f == |o: Origin| o.deployment@,
            g == |r: BootRecord| r.deployment@,
            forall|j: int|
                0 <= j < i ==> recorded_digest((#[trigger] origins@[j]).text@) is Some,
            origins@.take(i as int).filter(p).map_values(f) == records@.filter(q).map_values(g),
        decreases origins@.len() - i,
    {
        let origin = &origins[i];
        let digest = match boot_digest_in(origin.text.as_str()) {
            Ok(d) => d,
            Err(_) => {
                return Err(i);
            },
        };
        let record = BootRecord { deployment: origin.deployment.as_str().to_owned(), digest };
        let ghost before = records@;
        records.push(record);
        proof {
            crate::seqs::lemma_filter_take(origins@, i as int, p);
            crate::seqs::lemma_filter_take(records@, before.len() as int, q);
            assert(records@.take(before.len() as int) =~= before);
            assert(records@.take(before.len() as int + 1) =~= records@);
            assert(q(record) == p(*origin));
            let a = origins@.take(i as int).filter(p);
            let b = before.filter(q);
            assert(a.map_values(f).push(f(*origin)) =~= a.push(*origin).map_values(f));
            assert(b.map_values(g).push(g(record)) =~= b.push(record).map_values(g));
            assert(f(*origin) == g(record));
        }
        i += 1;
    }
    assert(origins@.take(i as int) =~= origins@);
    Ok(same_digest(&records, digest))
}

/// What a system says of itself.
pub struct OsRelease {
    pub id: String,
    pub title: Option<String>,
    pub version: Option<String>,
}

/// The identifier that a system gives itself, `bootc` where it gives none.
pub open spec fn os_id_of(text: Seq<char>) -> Seq<char> {
    match os_release_value(text, "ID"@) {
        Some(id) => id,
        None => "bootc"@,
    }
}

/// The title that a system gives itself.
pub open spec fn os_title_of(text: Seq<char>) -> Option<Seq<char>> {
    first_of(
        os_release_value(text, "PRETTY_NAME"@),
        first_of(os_release_value(text, "NAME"@), os_release_value(text, "ID"@)),
    )
}

/// The version that a system gives itself.
pub open spec fn os_version_of(text: Seq<char>) -> Option<Seq<char>> {
    first_of(os_release_value(text, "VERSION_ID"@), os_release_value(text, "VERSION"@))
}

/// What a system says of itself in its release file; nothing where it has none that can be read.
pub fn parse_os_release(contents: Option<&[u8]>) -> (r: Option<OsRelease>)
    ensures
        match contents {
            Some(b) => if valid_utf8(b@) {
                r matches Some(o) && o.id@ == os_id_of(decode_utf8(b@)) && text::opt_view(o.title)
                    == os_title_of(decode_utf8(b@)) && text::opt_view(o.version) == os_version_of(
                    decode_utf8(b@),
                )
            } else {
                r is None
            },
            None => r is None,
        },
{
    match contents {
        Some(bytes) => match text_of(bytes) {
            Some(s) => {
                let id = match os_release_get(s, "ID") {
                    Some(id) => id,
                    None => "bootc".to_owned(),
                };
                Some(
                    OsRelease {
                        id,
                        title: os_release_pretty_name(s),
                        version: os_release_version(s),
                    },
                )
            },
            None => None,
        },
        None => None,
    }
}

/// The version and the identifier in the release file of a unified kernel image.
pub fn uki_release(s: &str) -> (r: (Option<String>, Option<String>))
    ensures
        text::opt_view(r.0) == os_version_of(s@),
        text::opt_view(r.1) == os_release_value(s@, "ID"@),
{
    (os_release_version(s), os_release_get(s, "ID"))
}

/// A deployment's digest is what its origin has under `digest` in the section `boot`; an origin
/// without it has none, and one that cannot be read says nothing.
pub proof fn law_recorded_digest(origin: Seq<char>, digest: Seq<char>)
    ensures
        recorded_digest(origin) is None <==> ini_parsed(origin) is None,
        ini_parsed(origin) matches Some(values) ==> {
            &&& recorded_digest(origin) == Some(Some(digest)) <==> values.contains_key(
                ("boot"@, "digest"@),
            ) && values[("boot"@, "digest"@)] == digest
            &&& recorded_digest(origin) == Some(None::<Seq<char>>) <==> !values.contains_key(
                ("boot"@, "digest"@),
            )
        },
{
}

/// A deployment shares its kernel exactly if the digest recorded for it is the one asked for.
pub proof fn law_sharing(records: Seq<BootRecord>, digest: Seq<char>, name: Seq<char>)
    ensures
        sharing(records, digest).contains(name) <==> exists|i: int|
            0 <= i < records.len() && (#[trigger] records[i]).deployment@ == name && (
            records[i].digest matches Some(d) && d@ == digest),
{
    let p = |r: BootRecord| has_digest(r, digest);
    let f = |r: BootRecord| r.deployment@;
    let kept = records.filter(p);
    seqs::lemma_filter_members(records, p);
    if sharing(records, digest).contains(name) {
        let k = sharing(records, digest).index_of(name);
        assert(kept.map_values(f)[k] == kept[k].deployment@);
        assert(kept.contains(kept[k]));
        assert(records.contains(kept[k]) && p(kept[k]));
        let i = records.index_of(kept[k]);
        assert(records[i] == kept[k]);
    }
    if exists|i: int|
        0 <= i < records.len() && (#[trigger] records[i]).deployment@ == name && (
        records[i].digest matches Some(d) && d@ == digest) {
        let i = choose|i: int|
            0 <= i < records.len() && (#[trigger] records[i]).deployment@ == name && (
            records[i].digest matches Some(d) && d@ == digest);
        assert(records.contains(records[i]));
        assert(p(records[i]));
        assert(kept.contains(records[i]));
        let k = kept.index_of(records[i]);
        assert(kept.map_values(f)[k] == name);
    }
}

/// The same holds where the origins themselves are read.
pub proof fn law_duplicates(origins: Seq<Origin>, digest: Seq<char>, name: Seq<char>)
    ensures
        duplicates(origins, digest).contains(name) <==> exists|i: int|
            0 <= i < origins.len() && (#[trigger] origins[i]).deployment@ == name && (ini_parsed(
                origins[i].text@,
            ) matches Some(values) && values.contains_key(("boot"@, "digest"@)) && values[(
                "boot"@,
                "digest"@,
            )] == digest),
{
    let p = |o: Origin| recorded_digest(o.text@) == Some(Some(digest));
    let f = |o: Origin| o.deployment@;
    let kept = origins.filter(p);
    seqs::lemma_filter_members(origins, p);
    if duplicates(origins, digest).contains(name) {
        let k = duplicates(origins, digest).index_of(name);
        assert(kept.map_values(f)[k] == kept[k].deployment@);
        assert(kept.contains(kept[k]));
        assert(origins.contains(kept[k]) && p(kept[k]));
        let i = origins.index_of(kept[k]);
        assert(origins[i] == kept[k]);
    }
    if exists|i: int|
        0 <= i < origins.len() && (#[trigger] origins[i]).deployment@ == name && (ini_parsed(
            origins[i].text@,
        ) matches Some(values) && values.contains_key(("boot"@, "digest"@)) && values[(
            "boot"@,
            "digest"@,
        )] == digest) {
        let i = choose|i: int|
            0 <= i < origins.len() && (#[trigger] origins[i]).deployment@ == name && (ini_parsed(
                origins[i].text@,
            ) matches Some(values) && values.contains_key(("boot"@, "digest"@)) && values[(
                "boot"@,
                "digest"@,
            )] == digest);
        assert(origins.contains(origins[i]));
        assert(p(origins[i]));
        assert(kept.contains(origins[i]));
        let k = kept.index_of(origins[i]);
        assert(kept.map_values(f)[k] == name);
    }
}

/// A system goes by the nicest name it gives itself; its version is the number where it gives one.
/// One that does not say what it is counts as `bootc`.
pub proof fn law_os_names(text: Seq<char>)
    ensures
        ({
            let pretty = os_release_value(text, "PRETTY_NAME"@);
            let name = os_release_value(text, "NAME"@);
            let id = os_release_value(text, "ID"@);
            &&& pretty is Some ==> os_title_of(text) == pretty
            &&& pretty is None && name is Some ==> os_title_of(text) == name
            &&& pretty is None && name is None ==> os_title_of(text) == id
            &&& id matches Some(i) ==> os_id_of(text) == i
            &&& id is None ==> os_id_of(text) == "bootc"@
        }),
        ({
            let number = os_release_value(text, "VERSION_ID"@);
            let version = os_release_value(text, "VERSION"@);
            &&& number is Some ==> os_version_of(text) == number
            &&& number is None ==> os_version_of(text) == version
        }),
{
}

} // verus!
