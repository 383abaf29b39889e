//! What a built image and a booted system are checked for.
use crate::cmdline;
use crate::json;
use crate::text;
use vstd::prelude::*;

verus! {

/// How often a connection to a machine under test is tried.
pub const SSH_TRIES: u32 = 5;

/// The image name that stands for the system under test itself.
pub const BOOTED: &'static str = "<booted>";

/// The machine that a composefs image is tried on.
pub const VM_NAME: &'static str = "bootc-composefs-bcvk-test";

/// Whether the status of a system that is not booted is as it should: it has a status, without a
/// type. Nothing where it is no JSON.
pub fn status_without_type(output: &str) -> (r: Option<bool>)
    ensures
        r == match json::parsed(output@) {
            Some(j) => Some(
                match json::member(j, "status"@) {
                    Some(s) => json::member(s, "ty"@) is None,
                    None => false,
                },
            ),
            None => None,
        },
{
    match json::from_str(output) {
        Ok(v) => match json::get(&v, "status") {
            Some(s) => match json::get(s, "ty") {
                Some(_) => Some(false),
                None => Some(true),
            },
            None => Some(false),
        },
        Err(_) => None,
    }
}

/// Whether a command was refused because the system is not booted.
pub fn refused_unbooted(success: bool, stderr: &str) -> (r: bool)
    ensures
        r == (!success && text::occurs(stderr@, "this command requires a booted host system"@)),
{
    !success && text::contains(stderr, "this command requires a booted host system")
}

/// Whether an installation's configuration leaves the kernel arguments out; nothing where it is no
/// JSON.
pub fn config_without_kargs(output: &str) -> (r: Option<bool>)
    ensures
        r == match json::parsed(output@) {
            Some(j) => Some(json::member(j, "kargs"@) is None),
            None => None,
        },
{
    match json::from_str(output) {
        Ok(v) => match json::get(&v, "kargs") {
            Some(_) => Some(false),
            None => Some(true),
        },
        Err(_) => None,
    }
}

/// The kernel arguments of the test configuration and of the image.
pub open spec fn expected_kargs() -> Seq<Seq<char>> {
    seq!["karg1=1"@, "karg2=2"@, "localtestkarg=somevalue"@, "otherlocalkarg=42"@]
}

/// Whether these are the kernel arguments of the test configuration and of the image.
pub fn kargs_expected(kargs: &Vec<String>) -> (r: bool)
    ensures
        r == (text::views(kargs@) == expected_kargs()),
{
    let expected = vec!["karg1=1", "karg2=2", "localtestkarg=somevalue", "otherlocalkarg=42"];
    let ghost wanted = expected_kargs();
    assert(text::slice_views(expected@) =~= wanted);
    if kargs.len() != expected.len() {
        assert(text::views(kargs@).len() != wanted.len());
        return false;
    }
    let mut i: usize = 0;
    while i < kargs.len()
        invariant
            i <= kargs@.len(),
            kargs@.len() == expected@.len(),
            wanted == expected_kargs(),
            text::slice_views(expected@) == wanted,
            forall|j: int| 0 <= j < i ==> (#[trigger] kargs@[j])@ == wanted[j],
        decreases kargs@.len() - i,
    {
        assert(text::slice_views(expected@)[i as int] == expected@[i as int]@);
        if !text::same(kargs[i].as_str(), expected[i]) {
            assert(text::views(kargs@)[i as int] != wanted[i as int]);
            return false;
        }
        i += 1;
    }
    assert(text::views(kargs@) =~= wanted);
    true
}

/// Whether an image of a variant has a directory of EFI executables; nothing for a variant that is
/// not known.
pub fn variant_has_efi(variant: &str) -> (r: Option<bool>)
    ensures
        r == if variant@ == "ostree"@ {
            Some(false)
        } else if variant@ == "composefs-sealeduki-sdboot"@ {
            Some(true)
        } else {
            None
        },
{
    if text::same(variant, "ostree") {
        Some(false)
    } else if text::same(variant, "composefs-sealeduki-sdboot") {
        Some(true)
    } else {
        None
    }
}

/// Whether a system's release file is that of the base image; nothing for a base that is not known.
pub fn base_matches(base: &str, osrelease: &str) -> (r: Option<bool>)
    ensures
        r == if text::occurs(base@, "centos-bootc"@) {
            Some(text::occurs(osrelease@, "ID=\"centos\""@))
        } else if text::occurs(base@, "fedora-bootc"@) {
            Some(text::occurs(osrelease@, "ID=fedora"@))
        } else {
            None
        },
{
    if text::contains(base, "centos-bootc") {
        Some(text::contains(osrelease, "ID=\"centos\""))
    } else if text::contains(base, "fedora-bootc") {
        Some(text::contains(osrelease, "ID=fedora"))
    } else {
        None
    }
}

/// The first parameter from the `i`-th on with a key; their number where none has it.
pub open spec fn param_from(params: Seq<Seq<char>>, key: Seq<char>, i: int) -> int
    decreases params.len() - i,
{
    if i >= params.len() {
        params.len() as int
    } else if cmdline::key_of(params[i]) == cmdline::key_of(key) {
        i
    } else {
        param_from(params, key, i + 1)
    }
}

/// The value of the first parameter with a key, without the quotes around it; nothing where there is
/// none, or it has no value.
pub open spec fn param_value(options: Seq<char>, key: Seq<char>) -> Option<Seq<char>> {
    let params = cmdline::params_of(options);
    let i = param_from(params, key, 0);
    if i < params.len() {
        cmdline::parts_of(params[i]).1
    } else {
        None
    }
}

/// The value of the first parameter with a key, in kernel options.
pub fn find_param_value(options: &str, key: &str) -> (r: Option<String>)
    ensures
        text::opt_view(r) == param_value(options@, key@),
{
    let params = cmdline::params(options);
    let wanted = cmdline::param_key(key);
    let ghost all = text::slice_views(params@);
    let mut i: usize = 0;
    while i < params.len()
        invariant
            i <= params@.len(),
            all == text::slice_views(params@),
            all == cmdline::params_of(options@),
            wanted@ == cmdline::key_of(key@),
            param_from(all, key@, 0) == param_from(all, key@, i as int),
        decreases params@.len() - i,
    {
        assert(all[i as int] == params@[i as int]@);
        let k = cmdline::param_key(params[i]);
        if text::same(k.as_str(), wanted.as_str()) {
            return match cmdline::param_parts(params[i]).1 {
                Some(v) => Some(v.to_owned()),
                None => None,
            };
        }
        i += 1;
    }
    None
}

/// Whether the status of a system names the root file system that its kernel options name: both must
/// name one.
pub open spec fn names_same_root(status: json::Json, options: Seq<char>) -> bool {
    &&& status is Object
    &&& param_value(options, "composefs"@) is Some
    &&& json::text_at_path(status, seq!["status"@, "booted"@, "composefs"@, "verity"@])
        == param_value(options, "composefs"@)
}

/// Whether the status of a system names the root file system that its kernel options name; nothing
/// where the status is no JSON.
pub fn composefs_status_matches(output: &str, options: &str) -> (r: Option<bool>)
    ensures
        r == match json::parsed(output@) {
            Some(j) => Some(names_same_root(j, options@)),
            None => None,
        },
{
    match json::from_str(output) {
        Ok(v) => {
            let path = vec!["status", "booted", "composefs", "verity"];
            assert(text::slice_views(path@) =~= seq![
                "status"@,
                "booted"@,
                "composefs"@,
                "verity"@,
            ]);
            if !json::is_object(&v) {
                return Some(false);
            }
            match (json::text_at(&v, &path), find_param_value(options, "composefs")) {
                (Some(a), Some(b)) => Some(text::same(a, b.as_str())),
                _ => Some(false),
            }
        },
        Err(_) => None,
    }
}

/// Whether the tests run on the system under test itself.
pub fn runs_inside(image: &str) -> (r: bool)
    ensures
        r == (image@ == BOOTED@),
{
    text::same(image, BOOTED)
}

/// The command that launches the machine that a composefs image is tried on.
pub fn trial_launch_args(image: &str) -> (r: Vec<String>)
    ensures
        text::views(r@) == seq![
            "bcvk"@,
            "libvirt"@,
            "run"@,
            "--name"@,
            VM_NAME@,
            "--filesystem=ext4"@,
            "--firmware=uefi-insecure"@,
            image@,
        ],
{
    text::owned(
        &vec![
            "bcvk",
            "libvirt",
            "run",
            "--name",
            VM_NAME,
            "--filesystem=ext4",
            "--firmware=uefi-insecure",
            image,
        ],
    )
}

/// The value of a key is that of the first parameter with the key, wherever it stands among the
/// options. There is none if no parameter has the key.
pub proof fn law_param_value(options: Seq<char>, key: Seq<char>, i: int)
    ensures
        ({
            let params = cmdline::params_of(options);
            let keyed = |p: Seq<char>| cmdline::key_of(p) == cmdline::key_of(key);
            &&& 0 <= i < params.len() && keyed(params[i]) && (forall|j: int|
                0 <= j < i ==> !keyed(#[trigger] params[j])) ==> param_value(options, key)
                == cmdline::parts_of(params[i]).1
            &&& (forall|j: int| 0 <= j < params.len() ==> !keyed(#[trigger] params[j]))
                ==> param_value(options, key) is None
        }),
{
    lemma_param_from(cmdline::params_of(options), key, 0);
}

proof fn lemma_param_from(params: Seq<Seq<char>>, key: Seq<char>, i: int)
    requires
        0 <= i <= params.len(),
    ensures
        i <= param_from(params, key, i) <= params.len(),
        param_from(params, key, i) < params.len() ==> cmdline::key_of(
            params[param_from(params, key, i)],
        ) == cmdline::key_of(key),
        forall|j: int|
            i <= j < param_from(params, key, i) ==> cmdline::key_of(#[trigger] params[j])
                != cmdline::key_of(key),
    decreases params.len() - i,
{
    if i < params.len() && cmdline::key_of(params[i]) != cmdline::key_of(key) {
        lemma_param_from(params, key, i + 1);
    }
}

/// A status names the same root as the options exactly if both name one, and it is the same.
pub proof fn law_same_root(status: json::Json, options: Seq<char>)
    ensures
        names_same_root(status, options) ==> exists|root: Seq<char>|
            param_value(options, "composefs"@) == Some(root) && #[trigger] named_by(status, root),
        forall|root: Seq<char>|
            status is Object && param_value(options, "composefs"@) == Some(root)
                && #[trigger] named_by(status, root) ==> names_same_root(status, options),
{
    if names_same_root(status, options) {
        assert(named_by(status, param_value(options, "composefs"@).unwrap()));
    }
}

/// Whether a status names a root file system, in the place for that of the booted deployment.
pub open spec fn named_by(status: json::Json, root: Seq<char>) -> bool {
    json::text_at_path(status, seq!["status"@, "booted"@, "composefs"@, "verity"@]) == Some(root)
}

} // verus!
