//! Cleaning up after deployments: images, state directories and objects that nothing refers to.
//!
//! A deletion can stop half way: after the boot entry, or after the image. What is left then is
//! found by what is missing: an image without a boot entry, a state directory without an image.
use crate::boot::Bootloader;
use crate::digest;
use crate::paths;
use crate::seqs;
use crate::text;
use vstd::prelude::*;

verus! {

/// The directory of the deployments' state, below the system's root.
pub const STATE_DIR_RELATIVE: &'static str = "state/deploy";

/// The directory of what lasts until the next boot only.
pub const COMPOSEFS_TRANSIENT_STATE_DIR: &'static str = "/run/composefs";

/// Names the staged deployment.
pub const COMPOSEFS_STAGED_DEPLOYMENT_FNAME: &'static str = "staged-deployment";

/// The names that are in one list but not in another, in their order.
pub open spec fn missing_from(names: Seq<Seq<char>>, list: Seq<Seq<char>>) -> Seq<Seq<char>> {
    names.filter(|n: Seq<char>| !list.contains(n))
}

/// The names that are in one list but not in another, in their order.
pub fn names_missing_from(names: &Vec<String>, list: &Vec<String>) -> (r: Vec<String>)
    ensures
        text::views(r@) == missing_from(text::views(names@), text::views(list@)),
{
    let mut r: Vec<String> = Vec::new();
    let mut i: usize = 0;
    let ghost all = text::views(names@);
    let ghost wanted = text::views(list@);
    let ghost p = |n: Seq<char>| !wanted.contains(n);
    assert(all.take(0).filter(p) =~= Seq::empty()) by {
        reveal(Seq::filter);
    }
    while i < names.len()
        invariant
            i <= names@.len(),
            all == text::views(names@),
            wanted == text::views(list@),
            p == |n: Seq<char>| !wanted.contains(n),
            text::views(r@) == all.take(i as int).filter(p),
        decreases names@.len() - i,
    {
        assert(all[i as int] == names@[i as int]@);
        proof {
            seqs::lemma_filter_take(all, i as int, p);
        }
        if !text::is_one_of(list, names[i].as_str()) {
            text::push(&mut r, names[i].as_str());
        }
        i += 1;
    }
    assert(all.take(i as int) =~= all);
    r
}

/// The images to delete: those without a boot entry. If the booted one is among them something is
/// wrong, and nothing is to be deleted: the error is the message.
pub fn orphaned_images(
    images: &Vec<String>,
    bootloader_entries: &Vec<String>,
    booted: &str,
) -> (r: Result<Vec<String>, String>)
    ensures
        ({
            let orphans = missing_from(text::views(images@), text::views(bootloader_entries@));
            match r {
                Ok(v) => !orphans.contains(booted@) && text::views(v@) == orphans,
                Err(m) => orphans.contains(booted@) && m@ == "Inconsistent state. Booted entry '"@
                    + booted@ + "' found for cleanup"@,
            }
        }),
{
    let orphans = names_missing_from(images, bootloader_entries);
    if text::is_one_of(&orphans, booted) {
        Err(
            text::concat3(
                "Inconsistent state. Booted entry '",
                booted,
                "' found for cleanup",
            ),
        )
    } else {
        Ok(orphans)
    }
}

/// The state directories to delete: those without an image.
pub fn orphaned_states(state_dirs: &Vec<String>, images: &Vec<String>) -> (r: Vec<String>)
    ensures
        text::views(r@) == missing_from(text::views(state_dirs@), text::views(images@)),
{
    names_missing_from(state_dirs, images)
}

/// An image is an orphan exactly if it has no boot entry, and a state exactly if it has no image.
pub proof fn law_gc(
    images: Seq<Seq<char>>,
    entries: Seq<Seq<char>>,
    states: Seq<Seq<char>>,
    name: Seq<char>,
)
    ensures
        missing_from(images, entries).contains(name) <==> images.contains(name)
            && !entries.contains(name),
        missing_from(states, images).contains(name) <==> states.contains(name)
            && !images.contains(name),
        missing_from(images, entries).len() <= images.len(),
{
    seqs::lemma_filter_members(images, |n: Seq<char>| !entries.contains(n));
    seqs::lemma_filter_members(states, |n: Seq<char>| !images.contains(n));
}

/// The file of a deployment's image.
pub open spec fn image_file(id: Seq<char>) -> Seq<char> {
    paths::joined(paths::joined("composefs"@, "images"@), id)
}

/// The file of a deployment's image.
pub fn image_path(id: &str) -> (r: String)
    ensures
        r@ == image_file(id@),
{
    let dir = paths::join("composefs", "images");
    paths::join(dir.as_str(), id)
}

/// The directory of a deployment's state.
pub open spec fn state_directory(id: Seq<char>) -> Seq<char> {
    paths::joined(STATE_DIR_RELATIVE@, id)
}

/// The directory of a deployment's state.
pub fn state_path(id: &str) -> (r: String)
    ensures
        r@ == state_directory(id@),
{
    paths::join(STATE_DIR_RELATIVE, id)
}

/// The file that names the staged deployment.
pub open spec fn staged_name_file() -> Seq<char> {
    paths::joined(COMPOSEFS_TRANSIENT_STATE_DIR@, COMPOSEFS_STAGED_DEPLOYMENT_FNAME@)
}

/// The file that names the staged deployment, to be removed where there is one.
pub fn staged_file(has_staged: bool) -> (r: Option<String>)
    ensures
        text::opt_view(r) == if has_staged {
            Some(staged_name_file())
        } else {
            None
        },
{
    if has_staged {
        Some(paths::join(COMPOSEFS_TRANSIENT_STATE_DIR, COMPOSEFS_STAGED_DEPLOYMENT_FNAME))
    } else {
        None
    }
}

/// Something to be deleted.
pub enum Removal {
    /// A file by its absolute path.
    Staged(String),
    /// A file below the system's root.
    Image(String),
    /// A directory below the system's root.
    State(String),
}

/// The view of a removal.
pub enum RemovalView {
    Staged(Seq<char>),
    Image(Seq<char>),
    State(Seq<char>),
}

impl View for Removal {
    type V = RemovalView;

    open spec fn view(&self) -> RemovalView {
        match self {
            Removal::Staged(p) => RemovalView::Staged(p@),
            Removal::Image(p) => RemovalView::Image(p@),
            Removal::State(p) => RemovalView::State(p@),
        }
    }
}

/// The views of removals.
pub open spec fn removal_views(r: Seq<Removal>) -> Seq<RemovalView> {
    r.map_values(|x: Removal| x@)
}

/// What is deleted of images without a boot entry: of each its file, then its state.
pub open spec fn image_removals(orphans: Seq<Seq<char>>) -> Seq<RemovalView> {
    Seq::new(
        2 * orphans.len(),
        |i: int|
            if i % 2 == 0 {
                RemovalView::Image(image_file(orphans[i / 2]))
            } else {
                RemovalView::State(state_directory(orphans[i / 2]))
            },
    )
}

/// What is deleted of deployments without an image: of each its state.
pub open spec fn state_removals(orphans: Seq<Seq<char>>) -> Seq<RemovalView> {
    orphans.map_values(|n: Seq<char>| RemovalView::State(state_directory(n)))
}

/// What is deleted in all, in this order: the file that names a staged deployment, if there is one
/// and anything else goes; the images without a boot entry, with their states; the states without an
/// image.
pub open spec fn gc_removals(
    images: Seq<Seq<char>>,
    entries: Seq<Seq<char>>,
    states: Seq<Seq<char>>,
    has_staged: bool,
) -> Seq<RemovalView> {
    let orphans = missing_from(images, entries);
    let left = missing_from(states, images);
    let staged = if has_staged && orphans.len() + left.len() > 0 {
        seq![RemovalView::Staged(staged_name_file())]
    } else {
        Seq::empty()
    };
    staged + image_removals(orphans) + state_removals(left)
}

fn push_removal(v: &mut Vec<Removal>, x: Removal)
    ensures
        removal_views(final(v)@) == removal_views(old(v)@).push(x@),
{
    v.push(x);
    assert(removal_views(v@) =~= removal_views(old(v)@).push(x@));
}

/// Plans a whole clean-up from the names of all images, boot entries and state directories. If the
/// booted image is among those without a boot entry something is wrong, and nothing is to be deleted:
/// the error is the message.
pub fn plan_gc(
    images: &Vec<String>,
    entries: &Vec<String>,
    states: &Vec<String>,
    booted: &str,
    has_staged: bool,
) -> (r: Result<Vec<Removal>, String>)
    ensures
        ({
            let orphans = missing_from(text::views(images@), text::views(entries@));
            match r {
                Ok(v) => !orphans.contains(booted@) && removal_views(v@) == gc_removals(
                    text::views(images@),
                    text::views(entries@),
                    text::views(states@),
                    has_staged,
                ),
                Err(m) => orphans.contains(booted@) && m@ == "Inconsistent state. Booted entry '"@
                    + booted@ + "' found for cleanup"@,
            }
        }),
{
    let orphans = match orphaned_images(images, entries, booted) {
        Ok(o) => o,
        Err(m) => {
            return Err(m);
        },
    };
    let left = orphaned_states(states, images);
    let mut r: Vec<Removal> = Vec::new();
    match staged_file(has_staged && (orphans.len() > 0 || left.len() > 0)) {
        Some(p) => {
            push_removal(&mut r, Removal::Staged(p));
        },
        None => {},
    }
    let ghost staged = removal_views(r@);
    let ghost o = text::views(orphans@);
    let ghost l = text::views(left@);
    let mut i: usize = 0;
    assert(staged =~= staged + image_removals(o.take(0)));
    while i < orphans.len()
        invariant
            i <= orphans@.len(),
            o == text::views(orphans@),
            removal_views(r@) == staged + image_removals(o.take(i as int)),
        decreases orphans@.len() - i,
    {
        assert(o[i as int] == orphans@[i as int]@);
        push_removal(&mut r, Removal::Image(image_path(orphans[i].as_str())));
        push_removal(&mut r, Removal::State(state_path(orphans[i].as_str())));
        i += 1;
        assert(removal_views(r@) =~= staged + image_removals(o.take(i as int)));
    }
    assert(o.take(i as int) =~= o);
    let ghost before = removal_views(r@);
    let mut k: usize = 0;
    assert(before =~= before + state_removals(l.take(0)));
    while k < left.len()
        invariant
            k <= left@.len(),
            l == text::views(left@),
            removal_views(r@) == before + state_removals(l.take(k as int)),
        decreases left@.len() - k,
    {
        assert(l[k as int] == left@[k as int]@);
        push_removal(&mut r, Removal::State(state_path(left[k].as_str())));
        k += 1;
        assert(removal_views(r@) =~= before + state_removals(l.take(k as int)));
    }
    assert(l.take(k as int) =~= l);
    assert(removal_views(r@) =~= gc_removals(
        text::views(images@),
        text::views(entries@),
        text::views(states@),
        has_staged,
    ));
    Ok(r)
}

/// A clean-up deletes all that is to be deleted, however much that is: every image without a boot
/// entry goes with its state, and every state without an image goes. Nothing else goes but the file
/// that names a staged deployment, and that goes first and only once.
pub proof fn law_gc_plan(
    images: Seq<Seq<char>>,
    entries: Seq<Seq<char>>,
    states: Seq<Seq<char>>,
    has_staged: bool,
)
    ensures
        ({
            let plan = gc_removals(images, entries, states, has_staged);
            &&& forall|n: Seq<char>|
                images.contains(n) && !entries.contains(n) ==> plan.contains(
                    RemovalView::Image(#[trigger] image_file(n)),
                ) && plan.contains(RemovalView::State(state_directory(n)))
            &&& forall|n: Seq<char>|
                states.contains(n) && !images.contains(n) ==> plan.contains(
                    RemovalView::State(#[trigger] state_directory(n)),
                )
            &&& forall|i: int|
                0 <= i < plan.len() ==> match #[trigger] plan[i] {
                    RemovalView::Staged(f) => i == 0 && has_staged && f == staged_name_file(),
                    RemovalView::Image(f) => exists|n: Seq<char>|
                        images.contains(n) && !entries.contains(n) && f == #[trigger] image_file(n),
                    RemovalView::State(d) => exists|n: Seq<char>|
                        d == #[trigger] state_directory(n) && (images.contains(n)
                            && !entries.contains(n) || states.contains(n) && !images.contains(n)),
                }
            &&& has_staged && plan.len() > 0 ==> plan[0] is Staged
        }),
{
    let plan = gc_removals(images, entries, states, has_staged);
    let orphans = missing_from(images, entries);
    let left = missing_from(states, images);
    let a = image_removals(orphans);
    let b = state_removals(left);
    let s: int = plan.len() - a.len() - b.len();
    seqs::lemma_filter_members(images, |n: Seq<char>| !entries.contains(n));
    seqs::lemma_filter_members(states, |n: Seq<char>| !images.contains(n));
    assert forall|n: Seq<char>| images.contains(n) && !entries.contains(n) implies plan.contains(
        RemovalView::Image(#[trigger] image_file(n)),
    ) && plan.contains(RemovalView::State(state_directory(n))) by {
        assert(orphans.contains(n));
        let k = orphans.index_of(n);
        assert(a[2 * k] == RemovalView::Image(image_file(n)));
        assert((2 * k + 1) / 2 == k && (2 * k + 1) % 2 == 1);
        assert(a[2 * k + 1] == RemovalView::State(state_directory(n)));
        assert(plan[s + 2 * k] == a[2 * k]);
        assert(plan[s + 2 * k + 1] == a[2 * k + 1]);
    }
    assert forall|n: Seq<char>| states.contains(n) && !images.contains(n) implies plan.contains(
        RemovalView::State(#[trigger] state_directory(n)),
    ) by {
        assert(left.contains(n));
        let k = left.index_of(n);
        assert(b[k] == RemovalView::State(state_directory(n)));
        assert(plan[s + a.len() + k] == b[k]);
    }
    assert forall|i: int| 0 <= i < plan.len() implies match #[trigger] plan[i] {
        RemovalView::Staged(f) => i == 0 && has_staged && f == staged_name_file(),
        RemovalView::Image(f) => exists|n: Seq<char>|
            images.contains(n) && !entries.contains(n) && f == #[trigger] image_file(n),
        RemovalView::State(d) => exists|n: Seq<char>|
            d == #[trigger] state_directory(n) && (images.contains(n) && !entries.contains(n)
                || states.contains(n) && !images.contains(n)),
    } by {
        if s <= i < s + a.len() {
            let k = (i - s) / 2;
            assert(plan[i] == a[i - s]);
            assert(orphans.contains(orphans[k]));
            let f = image_file(orphans[k]);
            let d = state_directory(orphans[k]);
        } else if i >= s + a.len() {
            let k = i - s - a.len();
            assert(plan[i] == b[k]);
            assert(left.contains(left[k]));
            let d = state_directory(left[k]);
        }
    }
}

/// Where the boot entries are listed.
#[derive(Debug, Clone, Copy, PartialEq, Eq, Structural)]
pub enum EntrySource {
    /// Grub's menu.
    GrubMenu,
    /// Entry files.
    Type1,
}

/// Where the boot entries are listed: Grub with a menu of its own uses that, all else entry files.
pub fn entry_source(bootloader: Bootloader, has_user_cfg: bool) -> (r: EntrySource)
    ensures
        r == if bootloader == Bootloader::Grub && has_user_cfg {
            EntrySource::GrubMenu
        } else {
            EntrySource::Type1
        },
{
    match bootloader {
        Bootloader::Grub => if has_user_cfg {
            EntrySource::GrubMenu
        } else {
            EntrySource::Type1
        },
        Bootloader::Systemd => EntrySource::Type1,
    }
}

/// Something in the directory of states.
pub struct StateEntry {
    pub name: String,
    pub is_file: bool,
}

/// The state directories: all that are no plain files.
pub fn state_dirs(listing: &Vec<StateEntry>) -> (r: Vec<String>)
    ensures
        text::views(r@) == listing@.filter(|e: StateEntry| !e.is_file).map_values(
            |e: StateEntry| e.name@,
        ),
{
    let mut r: Vec<String> = Vec::new();
    let mut i: usize = 0;
    let ghost p = |e: StateEntry| !e.is_file;
    let ghost f = |e: StateEntry| e.name@;
    assert(listing@.take(0).filter(p) =~= Seq::empty()) by {
        reveal(Seq::filter);
    }
    while i < listing.len()
        invariant
            i <= listing@.len(),
            p == |e: StateEntry| !e.is_file,
            f == |e: StateEntry| e.name@,
            text::views(r@) == listing@.take(i as int).filter(p).map_values(f),
        decreases listing@.len() - i,
    {
        let e = &listing[i];
        proof {
            seqs::lemma_filter_take(listing@, i as int, p);
        }
        if !e.is_file {
            text::push(&mut r, e.name.as_str());
            assert(text::views(r@) =~= listing@.take(i + 1).filter(p).map_values(f));
        }
        i += 1;
    }
    assert(listing@.take(i as int) =~= listing@);
    r
}

/// The directory of the objects whose identifier starts with a byte: the byte in hexadecimal.
pub fn object_dir(first_byte: u8) -> (r: String)
    ensures
        r@ == digest::hex_of(seq![first_byte]),
{
    let bytes: Vec<u8> = vec![first_byte];
    assert(bytes@ =~= seq![first_byte]);
    digest::hex_encode(bytes.as_slice())
}

/// `Sha512HashValue::from_object_dir_and_basename` of `composefs`, with `to_hex`: the identifier
/// whose first byte is given and whose other 63 bytes a file name writes in hexadecimal digits of
/// either case; nothing for any other file name.
#[verifier::external_body]
fn object_id(first_byte: u8, file_name: &str) -> (r: Option<String>)
    ensures
        match r {
            Some(id) => digest::is_hex(file_name@, 126) && id@ == digest::hex_of(
                seq![first_byte] + digest::unhex(file_name@),
            ),
            None => !digest::is_hex(file_name@, 126),
        },
{
    <composefs::fsverity::Sha512HashValue as composefs::fsverity::FsVerityHashValue>::from_object_dir_and_basename(
        first_byte,
        file_name.as_bytes(),
    ).ok().map(|id| composefs::fsverity::FsVerityHashValue::to_hex(&id))
}

/// The identifier of an object, in hexadecimal.
pub open spec fn object_hex(first_byte: u8, file_name: Seq<char>) -> Seq<char> {
    digest::hex_of(seq![first_byte] + digest::unhex(file_name))
}

/// Whether an object is to be deleted: it is, unless an image refers to it. Nothing is decided on a
/// file that is no object.
pub fn delete_object(first_byte: u8, file_name: &str, referenced: &Vec<String>) -> (r: Option<bool>)
    ensures
        match r {
            Some(d) => digest::is_hex(file_name@, 126) && d == !text::views(referenced@).contains(
                object_hex(first_byte, file_name@),
            ),
            None => !digest::is_hex(file_name@, 126),
        },
{
    match object_id(first_byte, file_name) {
        Some(id) => Some(!text::is_one_of(referenced, id.as_str())),
        None => None,
    }
}

/// An object's directory and file name, read together, are its identifier: what is deleted is what
/// nothing refers to, by the very name it is stored under.
pub proof fn law_object_name(first_byte: u8, rest: Seq<u8>)
    requires
        rest.len() == 63,
    ensures
        digest::is_hex(digest::hex_of(rest), 126),
        object_hex(first_byte, digest::hex_of(rest)) == digest::hex_of(seq![first_byte])
            + digest::hex_of(rest),
{
    digest::law_hex_round_trip(rest);
    let whole = seq![first_byte] + rest;
    assert(digest::hex_of(whole) =~= digest::hex_of(seq![first_byte]) + digest::hex_of(rest)) by {
        assert forall|i: int| 0 <= i < 128 implies digest::hex_of(whole)[i] == (digest::hex_of(
            seq![first_byte],
        ) + digest::hex_of(rest))[i] by {
            if i >= 2 {
                assert((i - 2) % 2 == i % 2);
                assert((i - 2) / 2 == i / 2 - 1);
                assert(whole[i / 2] == rest[i / 2 - 1]);
            } else {
                assert(i / 2 == 0);
            }
        }
    }
}

/// What belongs to a deployment lies under its name in the directories of the images and of the
/// states.
pub proof fn law_places(id: Seq<char>)
    requires
        id.len() > 0 ==> id[0] != '/',
    ensures
        image_file(id) == "composefs/images/"@ + id,
        state_directory(id) == "state/deploy/"@ + id,
        staged_name_file() == "/run/composefs/staged-deployment"@,
{
    reveal_strlit("composefs");
    reveal_strlit("images");
    reveal_strlit("/");
    reveal_strlit("state/deploy");
    reveal_strlit("/run/composefs");
    reveal_strlit("staged-deployment");
    reveal_strlit("composefs/images/");
    reveal_strlit("state/deploy/");
    reveal_strlit("/run/composefs/staged-deployment");
    assert(paths::joined("composefs"@, "images"@) =~= "composefs"@ + "/"@ + "images"@);
    assert(image_file(id) =~= "composefs/images/"@ + id);
    assert(state_directory(id) =~= "state/deploy/"@ + id);
    assert(staged_name_file() =~= "/run/composefs/staged-deployment"@);
}

/// What is kept of a list stays in its order, and as often as it was there: one name more at the end
/// comes last, unless the other list has it.
pub proof fn law_missing_order(names: Seq<Seq<char>>, name: Seq<char>, list: Seq<Seq<char>>)
    ensures
        missing_from(names.push(name), list) == if list.contains(name) {
            missing_from(names, list)
        } else {
            missing_from(names, list).push(name)
        },
        missing_from(Seq::empty(), list).len() == 0,
{
    reveal(Seq::filter);
    assert(names.push(name).drop_last() =~= names);
}

/// A deployment's image goes right before its state: what is deleted of the images without a boot
/// entry comes in pairs, in the order of the images, and before all states without an image.
pub proof fn law_gc_order(
    images: Seq<Seq<char>>,
    entries: Seq<Seq<char>>,
    states: Seq<Seq<char>>,
    has_staged: bool,
    k: int,
)
    requires
        0 <= k < missing_from(images, entries).len(),
    ensures
        ({
            let plan = gc_removals(images, entries, states, has_staged);
            let first: int = if has_staged {
                1
            } else {
                0
            };
            let name = missing_from(images, entries)[k];
            &&& plan.len() == first + 2 * missing_from(images, entries).len() + missing_from(
                states,
                images,
            ).len()
            &&& plan[first + 2 * k] == RemovalView::Image(image_file(name))
            &&& plan[first + 2 * k + 1] == RemovalView::State(state_directory(name))
        }),
{
    assert((2 * k) % 2 == 0 && (2 * k) / 2 == k);
    assert((2 * k + 1) % 2 == 1 && (2 * k + 1) / 2 == k);
}

} // verus!
