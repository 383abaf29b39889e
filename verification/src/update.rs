//! Upgrades and switches of the booted system to another image.
use crate::boot::{BootType, Bootloader};
use crate::text;
use vstd::prelude::*;

verus! {

/// An image as it is asked for: `docker://` stands for the transport `registry`, any other keeps its
/// name.
pub open spec fn image_ref(transport: Seq<char>, image: Seq<char>) -> Seq<char> {
    let img = match text::without_prefix(image, ":"@) {
        Some(i) => i,
        None => image,
    };
    let t = match text::without_suffix(transport, ":"@) {
        Some(t) => t,
        None => transport,
    };
    if t == "registry"@ {
        "docker://"@ + img
    } else {
        t + ":"@ + img
    }
}

/// An image as it is asked for. One colon at the end of the transport and one at the start of the
/// image do not count.
pub fn get_imgref(transport: &str, image: &str) -> (r: String)
    ensures
        r@ == image_ref(transport@, image@),
{
    let img = match text::strip_prefix(image, ":") {
        Some(i) => i,
        None => image,
    };
    let transport = match text::strip_suffix(transport, ":") {
        Some(t) => t,
        None => transport,
    };
    if text::same(transport, "registry") {
        text::concat2("docker://", img)
    } else {
        text::concat3(transport, ":", img)
    }
}

/// A colon at the end of the transport makes no difference, unless there is one already, nor does one
/// at the start of the image, unless there is one already. What is asked for ends in the image.
pub proof fn law_imgref_colon(transport: Seq<char>, image: Seq<char>)
    ensures
        !":"@.is_suffix_of(transport) ==> image_ref(transport + ":"@, image) == image_ref(
            transport,
            image,
        ),
        !":"@.is_prefix_of(image) ==> image_ref(transport, ":"@ + image) == image_ref(
            transport,
            image,
        ),
        !":"@.is_prefix_of(image) ==> image.is_suffix_of(image_ref(transport, image)),
{
    let i = ":"@ + image;
    assert(":"@ =~= i.subrange(0, ":"@.len() as int));
    assert(i.subrange(":"@.len() as int, i.len() as int) =~= image);
    assert(text::without_prefix(i, ":"@) == Some(image));
    let r = image_ref(transport, image);
    if !":"@.is_prefix_of(image) {
        assert(image =~= r.subrange(r.len() - image.len(), r.len() as int));
    }
    let t = transport + ":"@;
    assert(":"@ =~= t.subrange(t.len() - ":"@.len(), t.len() as int));
    assert(t.subrange(0, t.len() - ":"@.len()) =~= transport);
    assert(text::without_suffix(t, ":"@) == Some(transport));
}

/// What an image that is there already calls for.
#[derive(Debug, Clone, Copy, PartialEq, Eq, Structural)]
pub enum UpdateAction {
    /// Nothing: one of the deployments is of it.
    Skip,
    /// An upgrade.
    Proceed,
    /// Only the reference to it changes: it is booted.
    UpdateOrigin,
}

/// What an image calls for: it is booted, or has a deployment, or neither.
pub open spec fn update_action(
    image_id: Seq<char>,
    booted: Seq<char>,
    deployments: Seq<Seq<char>>,
) -> UpdateAction {
    if image_id == booted {
        UpdateAction::UpdateOrigin
    } else if deployments.contains(image_id) {
        UpdateAction::Skip
    } else {
        UpdateAction::Proceed
    }
}

/// Decides what an image calls for, by the identifiers of its file system, of the booted one and of
/// those of all deployments.
pub fn validate_update(image_id: &str, booted: &str, deployments: &Vec<String>) -> (r: UpdateAction)
    ensures
        r == update_action(image_id@, booted@, text::views(deployments@)),
{
    if text::same(image_id, booted) {
        UpdateAction::UpdateOrigin
    } else if text::is_one_of(deployments, image_id) {
        UpdateAction::Skip
    } else {
        UpdateAction::Proceed
    }
}

/// What an earlier upgrade that was not finished may have left in the boot directory.
#[derive(Debug, Clone, Copy, PartialEq, Eq, Structural)]
pub enum StagedCleanup {
    /// The directory of staged entries.
    Type1Entries,
    /// Grub's staged menu.
    GrubUserCfg,
}

/// What is to be removed, where it is there, before an upgrade: Grub keeps the entries of unified
/// kernel images in its menu, all other entries are files.
pub fn staged_cleanup(bootloader: Bootloader, boot_type: BootType) -> (r: StagedCleanup)
    ensures
        r == if bootloader == Bootloader::Grub && boot_type == BootType::Uki {
            StagedCleanup::GrubUserCfg
        } else {
            StagedCleanup::Type1Entries
        },
{
    match bootloader {
        Bootloader::Grub => match boot_type {
            BootType::Bls => StagedCleanup::Type1Entries,
            BootType::Uki => StagedCleanup::GrubUserCfg,
        },
        Bootloader::Systemd => StagedCleanup::Type1Entries,
    }
}

/// One of the two images of an upgrade: the one the system was booted from, in its latest version,
/// or the one that is staged.
#[derive(Debug, Clone, Copy, PartialEq, Eq, Structural)]
pub enum Which {
    Booted,
    Staged,
}

/// How an upgrade ended.
#[derive(Debug, Clone, Copy, PartialEq, Eq, Structural)]
pub enum Outcome {
    /// The latest version is staged already.
    AlreadyStaged,
    /// The staged image has not changed.
    NoChangesInStaged,
    /// The booted image has not changed.
    NoChanges,
    /// The staged image is the booted one, which cannot be: this is an error.
    StagedIsBooted,
    /// There is a new deployment.
    Upgraded,
}

/// What an upgrade does next.
#[derive(Debug, Clone, Copy, PartialEq, Eq, Structural)]
pub enum UpgradeStep {
    /// Ask for an image's manifest, and whether the image is there.
    CheckImage(Which),
    /// Decide what an image calls for.
    Validate(Which),
    /// Make a deployment of an image, and restart then if that is asked for.
    Upgrade { image: Which, restart: bool },
    /// Change the reference only, to that of the booted image.
    UpdateOrigin,
    /// List the layers of an image that are missing.
    ReportLayers { of: Which },
    Restart,
    Finished(Outcome),
}

/// What was asked for.
#[derive(Debug, Clone, Copy, PartialEq, Eq, Structural)]
pub struct UpgradeOpts {
    /// Restart into the new deployment.
    pub apply: bool,
    /// Only look for what is new.
    pub check: bool,
}

/// What follows once it is clear which image is used: what is there is validated, what is not is
/// looked at or fetched.
pub open spec fn settled(image: Which, pulled: bool, opts: UpgradeOpts) -> UpgradeStep {
    if pulled {
        UpgradeStep::Validate(image)
    } else if opts.check {
        UpgradeStep::ReportLayers { of: image }
    } else {
        UpgradeStep::Upgrade { image, restart: opts.apply }
    }
}

/// What follows the check of the booted image. A staged image that is the latest version only waits
/// to be applied; any other staged image takes precedence.
pub open spec fn step_after_booted(
    staged_digest: Option<Seq<char>>,
    booted_digest: Seq<char>,
    booted_pulled: bool,
    opts: UpgradeOpts,
) -> UpgradeStep {
    match staged_digest {
        Some(d) => if d != booted_digest {
            UpgradeStep::CheckImage(Which::Staged)
        } else if opts.apply {
            UpgradeStep::Restart
        } else {
            UpgradeStep::Finished(Outcome::AlreadyStaged)
        },
        None => settled(Which::Booted, booted_pulled, opts),
    }
}

/// What follows the decision on an image that is there. The deployment it calls for is not restarted
/// into.
pub open spec fn step_after_validation(image: Which, action: UpdateAction) -> UpgradeStep {
    match (action, image) {
        (UpdateAction::Proceed, _) => UpgradeStep::Upgrade { image, restart: false },
        (UpdateAction::Skip, Which::Staged) => UpgradeStep::Finished(Outcome::NoChangesInStaged),
        (UpdateAction::Skip, Which::Booted) => UpgradeStep::Finished(Outcome::NoChanges),
        (UpdateAction::UpdateOrigin, Which::Staged) => UpgradeStep::Finished(
            Outcome::StagedIsBooted,
        ),
        (UpdateAction::UpdateOrigin, Which::Booted) => UpgradeStep::UpdateOrigin,
    }
}

fn settle(image: Which, pulled: bool, opts: UpgradeOpts) -> (r: UpgradeStep)
    ensures
        r == settled(image, pulled, opts),
{
    if pulled {
        UpgradeStep::Validate(image)
    } else if opts.check {
        UpgradeStep::ReportLayers { of: image }
    } else {
        UpgradeStep::Upgrade { image, restart: opts.apply }
    }
}

/// Decides what follows the check of the booted image.
pub fn after_booted_check(
    staged_digest: Option<&str>,
    booted_digest: &str,
    booted_pulled: bool,
    opts: UpgradeOpts,
) -> (r: UpgradeStep)
    ensures
        r == step_after_booted(
            text::opt_slice_view(staged_digest),
            booted_digest@,
            booted_pulled,
            opts,
        ),
{
    match staged_digest {
        Some(d) => if !text::same(d, booted_digest) {
            UpgradeStep::CheckImage(Which::Staged)
        } else if opts.apply {
            UpgradeStep::Restart
        } else {
            UpgradeStep::Finished(Outcome::AlreadyStaged)
        },
        None => settle(Which::Booted, booted_pulled, opts),
    }
}

/// Decides what follows the check of the staged image: it takes precedence, whatever is known of the
/// booted one.
pub fn after_staged_check(staged_pulled: bool, opts: UpgradeOpts) -> (r: UpgradeStep)
    ensures
        r == settled(Which::Staged, staged_pulled, opts),
{
    settle(Which::Staged, staged_pulled, opts)
}

/// Decides what follows the decision on an image that is there.
pub fn after_validation(image: Which, action: UpdateAction) -> (r: UpgradeStep)
    ensures
        r == step_after_validation(image, action),
{
    match action {
        UpdateAction::Proceed => UpgradeStep::Upgrade { image, restart: false },
        UpdateAction::Skip => match image {
            Which::Staged => UpgradeStep::Finished(Outcome::NoChangesInStaged),
            Which::Booted => UpgradeStep::Finished(Outcome::NoChanges),
        },
        UpdateAction::UpdateOrigin => match image {
            Which::Staged => UpgradeStep::Finished(Outcome::StagedIsBooted),
            Which::Booted => UpgradeStep::UpdateOrigin,
        },
    }
}

/// Decides what follows a new deployment.
pub fn after_upgrade(restart: bool) -> (r: UpgradeStep)
    ensures
        r == if restart {
            UpgradeStep::Restart
        } else {
            UpgradeStep::Finished(Outcome::Upgraded)
        },
{
    if restart {
        UpgradeStep::Restart
    } else {
        UpgradeStep::Finished(Outcome::Upgraded)
    }
}

/// All that an upgrade can learn on its way.
pub struct Facts {
    pub staged_digest: Option<Seq<char>>,
    pub booted_digest: Seq<char>,
    pub booted_pulled: bool,
    pub staged_pulled: bool,
    /// What the booted and the staged image call for.
    pub booted_action: UpdateAction,
    pub staged_action: UpdateAction,
}

/// The first step after both images are checked and what is there is validated: the one that changes
/// something, or the end.
pub open spec fn deciding_step(f: Facts, opts: UpgradeOpts) -> UpgradeStep {
    let a = step_after_booted(f.staged_digest, f.booted_digest, f.booted_pulled, opts);
    let b = match a {
        UpgradeStep::CheckImage(_) => settled(Which::Staged, f.staged_pulled, opts),
        s => s,
    };
    match b {
        UpgradeStep::Validate(image) => step_after_validation(
            image,
            if image == Which::Staged {
                f.staged_action
            } else {
                f.booted_action
            },
        ),
        s => s,
    }
}

/// The image that an upgrade is about: the staged one if it is another than the latest version of the
/// booted one.
pub open spec fn image_in_use(f: Facts) -> Which {
    if f.staged_digest is Some && f.staged_digest != Some(f.booted_digest) {
        Which::Staged
    } else {
        Which::Booted
    }
}

/// An upgrade always comes to a step that changes something or ends it. It restarts only if that is
/// asked for. It deploys and reports on no other image than the one it is about, and changes the
/// reference only where that is the booted one. What is only to be checked is deployed only if it is
/// there already. Where the latest version is staged, nothing is deployed.
pub proof fn law_upgrade(f: Facts, opts: UpgradeOpts)
    ensures
        ({
            let s = deciding_step(f, opts);
            let used = image_in_use(f);
            &&& s !is CheckImage && s !is Validate
            &&& s == UpgradeStep::Restart ==> opts.apply && f.staged_digest == Some(
                f.booted_digest,
            )
            &&& s matches UpgradeStep::Upgrade { image, restart } ==> {
                &&& image == used
                &&& restart ==> opts.apply
                &&& opts.check ==> if used == Which::Staged {
                    f.staged_pulled
                } else {
                    f.booted_pulled
                }
            }
            &&& s == UpgradeStep::UpdateOrigin ==> used == Which::Booted
            &&& s matches UpgradeStep::ReportLayers { of } ==> opts.check && of == used
            &&& f.staged_digest == Some(f.booted_digest) ==> s == UpgradeStep::Restart || s
                == UpgradeStep::Finished(Outcome::AlreadyStaged)
        }),
{
}

/// A staged image that is another takes precedence: whether the booted image is there, and what it
/// calls for, changes nothing.
pub proof fn law_staged_takes_precedence(f: Facts, g: Facts, opts: UpgradeOpts)
    requires
        image_in_use(f) == Which::Staged,
        image_in_use(g) == Which::Staged,
        f.staged_pulled == g.staged_pulled,
        f.staged_action == g.staged_action,
    ensures
        deciding_step(f, opts) == deciding_step(g, opts),
{
}

/// A layer of an image.
pub struct Layer {
    pub digest: String,
    pub size: u64,
}

/// The line on a layer that is missing.
pub open spec fn layer_line(l: Layer) -> Seq<char> {
    "Added layer: "@ + l.digest@ + "\tSize: "@ + text::decimal(l.size as nat)
}

/// The lines on the layers that are missing and that the manifest lists.
pub open spec fn missing_lines(have: Seq<bool>, layers: Seq<Layer>) -> Seq<Seq<char>>
    decreases have.len(),
{
    if have.len() == 0 {
        Seq::empty()
    } else if have.last() || have.len() > layers.len() {
        missing_lines(have.drop_last(), layers)
    } else {
        missing_lines(have.drop_last(), layers).push(layer_line(layers[have.len() - 1]))
    }
}

/// The lines on the layers that are missing. `have` tells of each layer of the file system whether it
/// is there. Where one is missing that the manifest does not list, the lists do not match: the lines
/// up to it come back as the error.
pub fn added_layers(have: &Vec<bool>, layers: &Vec<Layer>) -> (r: Result<Vec<String>, Vec<String>>)
    ensures
        match r {
            Ok(lines) => text::views(lines@) == missing_lines(have@, layers@),
            Err(lines) => text::views(lines@) == missing_lines(have@, layers@),
        },
        r is Err <==> exists|i: int| layers@.len() <= i < have@.len() && !#[trigger] have@[i],
{
    let mut lines: Vec<String> = Vec::new();
    let mut i: usize = 0;
    let mut mismatch = false;
    assert(text::views(lines@) =~= missing_lines(have@.take(0), layers@));
    while i < have.len() && !mismatch
        invariant
            i <= have@.len(),
            text::views(lines@) == missing_lines(have@.take(i as int), layers@),
            mismatch ==> exists|k: int| layers@.len() <= k < have@.len() && !#[trigger] have@[k],
            mismatch ==> i >= layers@.len(),
            !mismatch ==> forall|k: int| layers@.len() <= k < i ==> #[trigger] have@[k],
        decreases have@.len() - i,
    {
        assert(have@.take(i + 1).drop_last() =~= have@.take(i as int));
        assert(have@.take(i + 1).last() == have@[i as int]);
        if !have[i] {
            if i >= layers.len() {
                mismatch = true;
            } else {
                let layer = &layers[i];
                let size = text::decimal_text(layer.size);
                let line = text::concat4(
                    "Added layer: ",
                    layer.digest.as_str(),
                    "\tSize: ",
                    size.as_str(),
                );
                text::push(&mut lines, line.as_str());
            }
        }
        i += 1;
    }
    proof {
        lemma_no_more_lines(have@, layers@, i as int);
    }
    if mismatch {
        Err(lines)
    } else {
        Ok(lines)
    }
}

proof fn lemma_no_more_lines(have: Seq<bool>, layers: Seq<Layer>, i: int)
    requires
        0 <= i <= have.len(),
        i >= layers.len() || i == have.len(),
    ensures
        missing_lines(have, layers) == missing_lines(have.take(i), layers),
    decreases have.len(),
{
    if i < have.len() {
        lemma_no_more_lines(have.drop_last(), layers, i);
        assert(have.drop_last().take(i) =~= have.take(i));
    } else {
        assert(have.take(i) =~= have);
    }
}

/// What a switch does next.
#[derive(Debug, Clone, Copy, PartialEq, Eq, Structural)]
pub enum SwitchStep {
    /// The image that is asked for is the one in use.
    Unchanged,
    /// Ask whether the image is there.
    CheckImage,
    /// Decide what the image calls for.
    Validate,
    /// The image has a deployment already.
    NoChanges,
    Upgrade,
    UpdateOrigin,
}

/// The image that a system follows.
#[derive(Debug)]
pub struct ImageSpec {
    pub transport: String,
    pub image: String,
    /// How its signature is checked, where that is said.
    pub signature: Option<String>,
}

/// Whether two images are the same in every respect.
pub open spec fn same_spec(a: ImageSpec, b: ImageSpec) -> bool {
    &&& a.transport@ == b.transport@
    &&& a.image@ == b.image@
    &&& text::opt_view(a.signature) == text::opt_view(b.signature)
}

fn spec_eq(a: &ImageSpec, b: &ImageSpec) -> (r: bool)
    ensures
        r == same_spec(*a, *b),
{
    text::same(a.transport.as_str(), b.transport.as_str()) && text::same(
        a.image.as_str(),
        b.image.as_str(),
    ) && match (&a.signature, &b.signature) {
        (Some(x), Some(y)) => text::same(x.as_str(), y.as_str()),
        (None, None) => true,
        _ => false,
    }
}

/// Decides whether a switch has anything to do: not if the system follows the very image already.
pub fn switch_start(current: Option<&ImageSpec>, target: &ImageSpec) -> (r: SwitchStep)
    ensures
        r == if current matches Some(c) && same_spec(*c, *target) {
            SwitchStep::Unchanged
        } else {
            SwitchStep::CheckImage
        },
{
    match current {
        Some(c) => if spec_eq(c, target) {
            SwitchStep::Unchanged
        } else {
            SwitchStep::CheckImage
        },
        None => SwitchStep::CheckImage,
    }
}

/// Decides what follows the check of the image.
pub fn switch_after_check(pulled: bool) -> (r: SwitchStep)
    ensures
        r == if pulled {
            SwitchStep::Validate
        } else {
            SwitchStep::Upgrade
        },
{
    if pulled {
        SwitchStep::Validate
    } else {
        SwitchStep::Upgrade
    }
}

/// Decides what follows the decision on the image.
pub fn switch_after_validation(action: UpdateAction) -> (r: SwitchStep)
    ensures
        r == match action {
            UpdateAction::Skip => SwitchStep::NoChanges,
            UpdateAction::Proceed => SwitchStep::Upgrade,
            UpdateAction::UpdateOrigin => SwitchStep::UpdateOrigin,
        },
{
    match action {
        UpdateAction::Skip => SwitchStep::NoChanges,
        UpdateAction::Proceed => SwitchStep::Upgrade,
        UpdateAction::UpdateOrigin => SwitchStep::UpdateOrigin,
    }
}

/// The command that copies the pristine `/etc` of a mounted image to a deployment.
pub fn copy_etc_args(mounted: &str, state_path: &str) -> (r: Vec<String>)
    ensures
        text::views(r@) == seq![
            "cp"@,
            "-a"@,
            mounted@ + "/etc/."@,
            state_path@ + "/etc/."@,
        ],
{
    let from = text::concat2(mounted, "/etc/.");
    let to = text::concat2(state_path, "/etc/.");
    text::owned(&vec!["cp", "-a", from.as_str(), to.as_str()])
}

/// An image that is booted calls for a change of the reference only. Any other calls for nothing if
/// one of the deployments is of it, wherever that stands in the list, and else for an upgrade.
pub proof fn law_action(image_id: Seq<char>, booted: Seq<char>, deployments: Seq<Seq<char>>)
    ensures
        ({
            let action = update_action(image_id, booted, deployments);
            &&& action == UpdateAction::UpdateOrigin <==> image_id == booted
            &&& action == UpdateAction::Skip <==> image_id != booted && exists|i: int|
                0 <= i < deployments.len() && #[trigger] deployments[i] == image_id
            &&& action == UpdateAction::Proceed <==> image_id != booted && forall|i: int|
                0 <= i < deployments.len() ==> #[trigger] deployments[i] != image_id
        }),
{
    if exists|i: int| 0 <= i < deployments.len() && #[trigger] deployments[i] == image_id {
        let i = choose|i: int| 0 <= i < deployments.len() && #[trigger] deployments[i] == image_id;
        assert(deployments.contains(deployments[i]));
    }
    if deployments.contains(image_id) {
        assert(deployments[deployments.index_of(image_id)] == image_id);
    }
}

/// An image of a registry is asked for as `docker://` and its name, one of any other transport as the
/// transport, a colon and its name. A single colon that ends the transport does not count.
pub proof fn law_image_ref(transport: Seq<char>, image: Seq<char>)
    requires
        !transport.contains(':'),
        image.len() == 0 || image[0] != ':',
    ensures
        transport == "registry"@ ==> image_ref(transport, image) == "docker://"@ + image
            && image_ref(transport + ":"@, image) == "docker://"@ + image,
        transport != "registry"@ ==> image_ref(transport, image) == transport + ":"@ + image
            && image_ref(transport + ":"@, image) == transport + ":"@ + image,
{
    reveal_strlit(":");
    assert(!":"@.is_suffix_of(transport)) by {
        if ":"@.is_suffix_of(transport) {
            assert(transport.subrange(transport.len() - 1, transport.len() as int)[0] == ':');
            assert(transport.contains(transport[transport.len() - 1]));
        }
    }
    assert(!":"@.is_prefix_of(image)) by {
        if ":"@.is_prefix_of(image) {
            assert(image.subrange(0, 1)[0] == ':');
        }
    }
    law_imgref_colon(transport, image);
}

/// What follows the check of the booted image: a staged image that is the latest version is applied,
/// if that is asked for, or left as it is; any other staged image is checked; and without a staged
/// image, what is there is validated, and what is not is reported on or fetched.
pub proof fn law_after_booted(
    staged: Option<Seq<char>>,
    latest: Seq<char>,
    pulled: bool,
    opts: UpgradeOpts,
)
    ensures
        ({
            let step = step_after_booted(staged, latest, pulled, opts);
            &&& step == UpgradeStep::Restart <==> staged == Some(latest) && opts.apply
            &&& step == UpgradeStep::Finished(Outcome::AlreadyStaged) <==> staged == Some(latest)
                && !opts.apply
            &&& step == UpgradeStep::CheckImage(Which::Staged) <==> staged is Some && staged != Some(
                latest,
            )
            &&& step == UpgradeStep::Validate(Which::Booted) <==> staged is None && pulled
            &&& step == (UpgradeStep::ReportLayers { of: Which::Booted }) <==> staged is None
                && !pulled && opts.check
            &&& step == (UpgradeStep::Upgrade { image: Which::Booted, restart: opts.apply }) <==>
                staged is None && !pulled && !opts.check
        }),
{
}

/// What follows the check of the staged image and the decision on an image that is there.
pub proof fn law_after_checks(image: Which, pulled: bool, opts: UpgradeOpts, action: UpdateAction)
    ensures
        pulled <==> settled(image, pulled, opts) == UpgradeStep::Validate(image),
        !pulled && opts.check <==> settled(image, pulled, opts) == (UpgradeStep::ReportLayers {
            of: image,
        }),
        !pulled && !opts.check <==> settled(image, pulled, opts) == (UpgradeStep::Upgrade {
            image,
            restart: opts.apply,
        }),
        action == UpdateAction::Proceed <==> step_after_validation(image, action)
            == (UpgradeStep::Upgrade { image, restart: false }),
        action == UpdateAction::Skip && image == Which::Staged <==> step_after_validation(
            image,
            action,
        ) == UpgradeStep::Finished(Outcome::NoChangesInStaged),
        action == UpdateAction::Skip && image == Which::Booted <==> step_after_validation(
            image,
            action,
        ) == UpgradeStep::Finished(Outcome::NoChanges),
        action == UpdateAction::UpdateOrigin && image == Which::Staged <==> step_after_validation(
            image,
            action,
        ) == UpgradeStep::Finished(Outcome::StagedIsBooted),
        action == UpdateAction::UpdateOrigin && image == Which::Booted <==> step_after_validation(
            image,
            action,
        ) == UpgradeStep::UpdateOrigin,
{
}

/// A layer is reported exactly if it is missing and the manifest lists it, by its digest and its size,
/// and the layers are reported in their order: each adds its line behind those of the layers before
/// it.
pub proof fn law_missing_layers(have: Seq<bool>, layers: Seq<Layer>, there: bool)
    ensures
        there ==> missing_lines(have.push(there), layers) == missing_lines(have, layers),
        !there && have.len() < layers.len() ==> missing_lines(have.push(there), layers)
            == missing_lines(have, layers).push(
            "Added layer: "@ + layers[have.len() as int].digest@ + "\tSize: "@ + text::decimal(
                layers[have.len() as int].size as nat,
            ),
        ),
        !there && have.len() >= layers.len() ==> missing_lines(have.push(there), layers)
            == missing_lines(have, layers),
        missing_lines(Seq::empty(), layers).len() == 0,
{
    assert(have.push(there).drop_last() =~= have);
}

/// Two images are the same exactly if nothing of them differs: the transport, the name, or how the
/// signature is checked.
pub proof fn law_same_spec(a: ImageSpec, b: ImageSpec)
    ensures
        a.transport@ != b.transport@ ==> !same_spec(a, b),
        a.image@ != b.image@ ==> !same_spec(a, b),
        a.signature is Some != b.signature is Some ==> !same_spec(a, b),
        a.signature matches Some(x) && b.signature matches Some(y) && x@ != y@ ==> !same_spec(a, b),
        same_spec(a, a),
{
}

} // verus!
