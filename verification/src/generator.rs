//! Units that are made at boot.
use crate::paths;
use crate::text;
use crate::text_map::TextMap;
use vstd::prelude::*;

verus! {

pub const STATUS_ONBOOT_UNIT: &'static str = "bootc-status-updated-onboot.target";

pub const STATUS_PATH_UNIT: &'static str = "bootc-status-updated.path";

pub const CLEANUP_UNIT: &'static str = "bootc-destructive-cleanup.service";

pub const MULTI_USER_TARGET: &'static str = "multi-user.target";

pub const EDIT_UNIT: &'static str = "bootc-fstab-edit.service";

/// Marks a table of file systems that the installer made.
pub const FSTAB_ANACONDA_STAMP: &'static str = "Created by anaconda";

/// Marks a table of file systems that has been edited.
pub const BOOTC_EDITED_STAMP: &'static str = "Updated by bootc-fstab-edit.service";

/// Whether a line holds a mark.
pub open spec fn has_mark(lines: Seq<Seq<char>>, mark: Seq<char>) -> bool {
    exists|i: int| 0 <= i < lines.len() && text::occurs(#[trigger] lines[i], mark)
}

/// Whether a table of file systems is to be edited: the installer made it, and it has not been
/// edited.
pub open spec fn wants_edit(fstab: Seq<char>) -> bool {
    let lines = text::lines_of(fstab);
    has_mark(lines, FSTAB_ANACONDA_STAMP@) && !has_mark(lines, BOOTC_EDITED_STAMP@)
}

fn marked(lines: &Vec<&str>, mark: &str) -> (r: bool)
    ensures
        r == has_mark(text::slice_views(lines@), mark@),
{
    let mut i: usize = 0;
    let ghost all = text::slice_views(lines@);
    while i < lines.len()
        invariant
            i <= lines@.len(),
            all == text::slice_views(lines@),
            forall|j: int| 0 <= j < i ==> !text::occurs(#[trigger] all[j], mark@),
        decreases lines@.len() - i,
    {
        assert(all[i as int] == lines@[i as int]@);
        if text::contains(lines[i], mark) {
            return true;
        }
        i += 1;
    }
    false
}

/// Whether the table of file systems is to be edited. It never is on a system that ostree did not
/// boot, nor where there is none.
pub fn fstab_needs_edit(ostree_booted: bool, fstab: Option<&str>) -> (r: bool)
    ensures
        r == (ostree_booted && (fstab matches Some(f) && wants_edit(f@))),
{
    if !ostree_booted {
        return false;
    }
    match fstab {
        Some(f) => {
            let lines = text::lines(f);
            !marked(&lines, BOOTC_EDITED_STAMP) && marked(&lines, FSTAB_ANACONDA_STAMP)
        },
        None => false,
    }
}

/// A table that has been edited is not edited again: once a line bears the mark, nothing more is
/// done.
pub proof fn law_edited_once(fstab: Seq<char>)
    requires
        has_mark(text::lines_of(fstab), BOOTC_EDITED_STAMP@),
    ensures
        !wants_edit(fstab),
{
}

/// The directory of the links that make a target want units.
pub open spec fn wants_dir(target: Seq<char>) -> Seq<char> {
    target + ".wants"@
}

/// A link that enables a unit.
pub struct UnitLink {
    /// The directory of the link.
    pub directory: String,
    /// What it leads to.
    pub source: String,
    /// The link.
    pub link: String,
}

/// The link that makes a target want a unit.
pub open spec fn link_of(name: Seq<char>, target: Seq<char>) -> Seq<char> {
    paths::joined(wants_dir(target), name)
}

/// What the link that enables a unit leads to.
pub open spec fn source_of(name: Seq<char>) -> Seq<char> {
    "/usr/lib/systemd/system/"@ + name
}

/// The link that makes a target want a unit.
pub fn enable_unit(name: &str, target: &str) -> (r: UnitLink)
    ensures
        r.directory@ == wants_dir(target@),
        r.source@ == source_of(name@),
        r.link@ == link_of(name@, target@),
{
    let directory = text::concat2(target, ".wants");
    let link = paths::join(directory.as_str(), name);
    UnitLink { directory, source: text::concat2("/usr/lib/systemd/system/", name), link }
}

/// The units that are enabled. The one that cleans up is, where a stamp asks for it.
pub open spec fn units(destructive_cleanup: bool) -> Seq<Seq<char>> {
    if destructive_cleanup {
        seq![STATUS_ONBOOT_UNIT@, STATUS_PATH_UNIT@, CLEANUP_UNIT@]
    } else {
        seq![STATUS_ONBOOT_UNIT@, STATUS_PATH_UNIT@]
    }
}

/// The units that are enabled.
pub fn enabled_units(destructive_cleanup: bool) -> (r: Vec<String>)
    ensures
        text::views(r@) == units(destructive_cleanup),
{
    if destructive_cleanup {
        text::owned(&vec![STATUS_ONBOOT_UNIT, STATUS_PATH_UNIT, CLEANUP_UNIT])
    } else {
        text::owned(&vec![STATUS_ONBOOT_UNIT, STATUS_PATH_UNIT])
    }
}

/// Links by their paths, with what they lead to.
pub open spec fn links_view(links: Map<Seq<char>, String>) -> Map<Seq<char>, Seq<char>> {
    links.map_values(|s: String| s@)
}

/// The links with those of some units put in, each in place of what was there.
pub open spec fn with_links(
    links: Map<Seq<char>, Seq<char>>,
    names: Seq<Seq<char>>,
) -> Map<Seq<char>, Seq<char>>
    decreases names.len(),
{
    if names.len() == 0 {
        links
    } else {
        with_links(links, names.drop_last()).insert(
            link_of(names.last(), MULTI_USER_TARGET@),
            source_of(names.last()),
        )
    }
}

/// The links once the units are enabled.
pub open spec fn with_units(
    links: Map<Seq<char>, Seq<char>>,
    destructive_cleanup: bool,
) -> Map<Seq<char>, Seq<char>> {
    with_links(links, units(destructive_cleanup))
}

/// Enables the units among the links that are there. All other links stay.
pub fn enable_units(links: &mut TextMap<String>, destructive_cleanup: bool)
    ensures
        links_view(final(links)@) == with_units(links_view(old(links)@), destructive_cleanup),
        old(links).wf() ==> final(links).wf(),
{
    let names = enabled_units(destructive_cleanup);
    let ghost all = text::views(names@);
    let ghost before = links_view(links@);
    let mut i: usize = 0;
    while i < names.len()
        invariant
            i <= names@.len(),
            all == text::views(names@),
            links_view(links@) == with_links(before, all.take(i as int)),
            old(links).wf() ==> links.wf(),
        decreases names@.len() - i,
    {
        let unit = enable_unit(names[i].as_str(), MULTI_USER_TARGET);
        let ghost held = links@;
        links.insert(unit.link, unit.source);
        proof {
            assert(all.take(i + 1).drop_last() =~= all.take(i as int));
            assert(all.take(i + 1).last() == names@[i as int]@);
            assert(links_view(links@) =~= links_view(held).insert(unit.link@, unit.source@));
        }
        i += 1;
    }
    assert(all.take(i as int) =~= all);
}

/// The links once the units were enabled a number of times.
pub open spec fn with_units_times(
    links: Map<Seq<char>, Seq<char>>,
    destructive_cleanup: bool,
    times: nat,
) -> Map<Seq<char>, Seq<char>>
    decreases times,
{
    if times == 0 {
        links
    } else {
        with_units(
            with_units_times(links, destructive_cleanup, (times - 1) as nat),
            destructive_cleanup,
        )
    }
}

/// Enabling the units again, however often, leaves the same links. Where the stamp came up in between,
/// the links are those that it would have led to at once.
pub proof fn law_units_again(
    links: Map<Seq<char>, Seq<char>>,
    destructive_cleanup: bool,
    times: nat,
)
    ensures
        times > 0 ==> with_units_times(links, destructive_cleanup, times) == with_units(
            links,
            destructive_cleanup,
        ),
        with_units(with_units(links, false), true) == with_units(links, true),
    decreases times,
{
    lemma_with_units(links, false);
    lemma_with_units(links, true);
    lemma_with_units(with_units(links, destructive_cleanup), destructive_cleanup);
    lemma_with_units(with_units(links, false), true);
    assert(with_units(with_units(links, false), true) =~= with_units(links, true));
    if times > 1 {
        law_units_again(links, destructive_cleanup, (times - 1) as nat);
        assert(with_units(with_units(links, destructive_cleanup), destructive_cleanup)
            =~= with_units(links, destructive_cleanup));
    } else if times == 1 {
        assert(with_units_times(links, destructive_cleanup, 0) == links);
    }
}

/// Where there were no links, there are exactly those of the units: one for each, all in the one
/// directory of what the target wants, and each leads to its unit.
pub proof fn law_units_alone(destructive_cleanup: bool)
    ensures
        ({
            let links = with_units(Map::empty(), destructive_cleanup);
            &&& forall|i: int|
                0 <= i < units(destructive_cleanup).len() ==> {
                    let name = #[trigger] units(destructive_cleanup)[i];
                    let link = wants_dir(MULTI_USER_TARGET@) + "/"@ + name;
                    links.contains_key(link) && links[link] == source_of(name)
                }
            &&& links.dom().finite()
            &&& links.dom().len() == units(destructive_cleanup).len()
        }),
{
    reveal_strlit("bootc-status-updated-onboot.target");
    reveal_strlit("bootc-status-updated.path");
    reveal_strlit("bootc-destructive-cleanup.service");
    reveal_strlit("multi-user.target");
    reveal_strlit(".wants");
    reveal_strlit("/");
    let dir = wants_dir(MULTI_USER_TARGET@);
    let a = link_of(STATUS_ONBOOT_UNIT@, MULTI_USER_TARGET@);
    let b = link_of(STATUS_PATH_UNIT@, MULTI_USER_TARGET@);
    let c = link_of(CLEANUP_UNIT@, MULTI_USER_TARGET@);
    assert(a == dir + "/"@ + STATUS_ONBOOT_UNIT@);
    assert(b == dir + "/"@ + STATUS_PATH_UNIT@);
    assert(c == dir + "/"@ + CLEANUP_UNIT@);
    assert(a.len() != b.len() && a.len() != c.len() && b.len() != c.len());
    lemma_with_units(Map::empty(), destructive_cleanup);
}

proof fn lemma_with_units(links: Map<Seq<char>, Seq<char>>, destructive_cleanup: bool)
    ensures
        ({
            let two = links.insert(
                link_of(STATUS_ONBOOT_UNIT@, MULTI_USER_TARGET@),
                source_of(STATUS_ONBOOT_UNIT@),
            ).insert(
                link_of(STATUS_PATH_UNIT@, MULTI_USER_TARGET@),
                source_of(STATUS_PATH_UNIT@),
            );
            with_units(links, destructive_cleanup) == if destructive_cleanup {
                two.insert(
                    link_of(CLEANUP_UNIT@, MULTI_USER_TARGET@),
                    source_of(CLEANUP_UNIT@),
                )
            } else {
                two
            }
        }),
{
    reveal_with_fuel(with_links, 4);
    assert(units(true).drop_last() =~= units(false));
    assert(units(false).drop_last() =~= seq![STATUS_ONBOOT_UNIT@]);
    assert(units(false).drop_last().drop_last() =~= Seq::<Seq<char>>::empty());
}

/// What the generator does on a system.
#[derive(Debug, Clone, Copy, PartialEq, Eq, Structural)]
pub enum GeneratorSteps {
    Nothing,
    /// Enable units.
    Units,
    /// Enable units, and see to the table of file systems.
    UnitsAndFstab,
}

/// Decides what the generator does: nothing unless ostree booted the system and it has a physical
/// root; the table of file systems only where the root is a read-only overlay.
pub fn generator_steps(
    ostree_booted: bool,
    has_sysroot: bool,
    root_is_overlay: bool,
    root_is_readonly: bool,
) -> (r: GeneratorSteps)
    ensures
        r == if !ostree_booted || !has_sysroot {
            GeneratorSteps::Nothing
        } else if root_is_overlay && root_is_readonly {
            GeneratorSteps::UnitsAndFstab
        } else {
            GeneratorSteps::Units
        },
{
    if !ostree_booted || !has_sysroot {
        GeneratorSteps::Nothing
    } else if root_is_overlay && root_is_readonly {
        GeneratorSteps::UnitsAndFstab
    } else {
        GeneratorSteps::Units
    }
}

/// The unit that edits the table of file systems, and the link that starts it.
pub struct FstabEditor {
    pub unit: String,
    pub content: String,
    pub directory: String,
    pub source: String,
    pub link: String,
}

/// The unit that edits the table of file systems before local file systems are mounted.
pub fn fstab_editor() -> (r: FstabEditor)
    ensures
        r.unit@ == EDIT_UNIT@,
        r.content@
            == "[Unit]\nDefaultDependencies=no\nAfter=systemd-fsck-root.service\nBefore=local-fs-pre.target local-fs.target shutdown.target systemd-remount-fs.service\n\n[Service]\nType=oneshot\nRemainAfterExit=yes\nExecStart=bootc internals fixup-etc-fstab\n"@,
        r.directory@ == "local-fs-pre.target.wants"@,
        r.source@ == "../"@ + EDIT_UNIT@,
        r.link@ == "local-fs-pre.target.wants"@ + "/"@ + EDIT_UNIT@,
{
    FstabEditor {
        unit: EDIT_UNIT.to_owned(),
        content: "[Unit]\nDefaultDependencies=no\nAfter=systemd-fsck-root.service\nBefore=local-fs-pre.target local-fs.target shutdown.target systemd-remount-fs.service\n\n[Service]\nType=oneshot\nRemainAfterExit=yes\nExecStart=bootc internals fixup-etc-fstab\n".to_owned(),
        directory: "local-fs-pre.target.wants".to_owned(),
        source: text::concat2("../", EDIT_UNIT),
        link: text::concat3("local-fs-pre.target.wants", "/", EDIT_UNIT),
    }
}

/// A table is edited exactly if some line of it, wherever it stands, tells that the installer made it,
/// and no line tells that it was edited.
pub proof fn law_fstab(fstab: Seq<char>)
    ensures
        ({
            let lines = text::lines_of(fstab);
            wants_edit(fstab) <==> (exists|i: int|
                0 <= i < lines.len() && text::occurs(#[trigger] lines[i], "Created by anaconda"@))
                && !(exists|j: int|
                0 <= j < lines.len() && text::occurs(
                    #[trigger] lines[j],
                    "Updated by bootc-fstab-edit.service"@,
                ))
        }),
{
}

/// The mark of the installer, or of an edit, is found in a line whatever comes before and after the
/// line, and whatever stands before and after the mark in it.
pub proof fn law_fstab_line(
    before: Seq<Seq<char>>,
    a: Seq<char>,
    mark: Seq<char>,
    b: Seq<char>,
    after: Seq<Seq<char>>,
)
    ensures
        has_mark(before.push(a + mark + b) + after, mark),
        has_mark(before, mark) ==> has_mark(before + after, mark),
        has_mark(after, mark) ==> has_mark(before + after, mark),
        has_mark(before + after, mark) ==> has_mark(before, mark) || has_mark(after, mark),
{
    let all = before.push(a + mark + b) + after;
    let both = before + after;
    text::law_occurs(a + mark + b, mark, a, b);
    assert(all[before.len() as int] == a + mark + b);
    if has_mark(before, mark) {
        let i = choose|i: int| 0 <= i < before.len() && text::occurs(#[trigger] before[i], mark);
        assert(both[i] == before[i]);
    }
    if has_mark(after, mark) {
        let i = choose|i: int| 0 <= i < after.len() && text::occurs(#[trigger] after[i], mark);
        assert(both[before.len() + i] == after[i]);
    }
    if has_mark(both, mark) {
        let i = choose|i: int| 0 <= i < both.len() && text::occurs(#[trigger] both[i], mark);
        if i < before.len() {
            assert(before[i] == both[i]);
        } else {
            assert(after[i - before.len()] == both[i]);
        }
    }
}

/// A unit is enabled by a link of its name in the target's own directory, which leads to the unit of
/// that name among those of the system.
pub proof fn law_unit_link(name: Seq<char>, target: Seq<char>)
    requires
        name.len() > 0,
        name[0] != '/',
    ensures
        link_of(name, target) == target + ".wants/"@ + name,
        source_of(name) == "/usr/lib/systemd/system/"@ + name,
{
    reveal_strlit(".wants");
    reveal_strlit("/");
    reveal_strlit(".wants/");
    assert(link_of(name, target) =~= target + ".wants/"@ + name);
}

} // verus!
