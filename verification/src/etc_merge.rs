//! Comparing the `/etc` of a system with the one that it was made from.
//!
//! File names are bytes, and paths are file names with slashes between.
use crate::digest;
use crate::kernel::same_bytes;
use crate::text;
use vstd::prelude::*;

verus! {

/// What is known of the content of a file.
#[derive(Debug)]
pub struct CustomMetadata {
    pub content_hash: String,
    pub verity: Option<String>,
}

impl CustomMetadata {
    pub fn new(content_hash: String, verity: Option<String>) -> (r: Self)
        ensures
            r.content_hash == content_hash,
            r.verity == verity,
    {
        CustomMetadata { content_hash, verity }
    }
}

/// An extended attribute.
#[derive(Debug)]
pub struct Xattr {
    pub name: Vec<u8>,
    pub value: Vec<u8>,
}

/// Mode, ownership, time of change and extended attributes of a file.
#[derive(Debug)]
pub struct Stat {
    pub st_mode: u32,
    pub st_uid: u32,
    pub st_gid: u32,
    pub st_mtim_sec: i64,
    pub xattrs: Vec<Xattr>,
}

/// A file or a symbolic link.
#[derive(Debug)]
pub struct Leaf {
    pub stat: Stat,
    pub content: CustomMetadata,
}

/// What a directory holds under a name.
#[derive(Debug)]
pub enum Inode {
    Directory(Directory),
    Leaf(Leaf),
}

/// A name in a directory, and what it stands for.
#[derive(Debug)]
pub struct Entry {
    pub name: Vec<u8>,
    pub inode: Inode,
}

/// A directory, in the order of its names.
#[derive(Debug)]
pub struct Directory {
    pub entries: Vec<Entry>,
}

/// What changed.
#[derive(Debug)]
pub struct Diff {
    pub added: Vec<Vec<u8>>,
    pub modified: Vec<Vec<u8>>,
    pub removed: Vec<Vec<u8>>,
}

/// The views of byte strings.
pub open spec fn byte_views(v: Seq<Vec<u8>>) -> Seq<Seq<u8>> {
    v.map_values(|b: Vec<u8>| b@)
}

/// Whether byte strings are in order, as their first difference tells.
pub open spec fn bytes_before(a: Seq<u8>, b: Seq<u8>) -> bool
    decreases a.len(),
{
    if b.len() == 0 {
        false
    } else if a.len() == 0 {
        true
    } else if a[0] != b[0] {
        a[0] < b[0]
    } else {
        bytes_before(a.drop_first(), b.drop_first())
    }
}

/// Whether byte strings are in order.
pub fn bytes_less(a: &Vec<u8>, b: &Vec<u8>) -> (r: bool)
    ensures
        r == bytes_before(a@, b@),
{
    let mut i: usize = 0;
    assert(a@.skip(0) =~= a@ && b@.skip(0) =~= b@);
    while i < a.len() && i < b.len()
        invariant
            i <= a@.len(),
            i <= b@.len(),
            bytes_before(a@, b@) == bytes_before(a@.skip(i as int), b@.skip(i as int)),
        decreases a@.len() - i,
    {
        if a[i] != b[i] {
            return a[i] < b[i];
        }
        assert(a@.skip(i as int).drop_first() =~= a@.skip(i + 1));
        assert(b@.skip(i as int).drop_first() =~= b@.skip(i + 1));
        i += 1;
    }
    i == a.len() && i < b.len()
}

/// Byte strings are ordered: of two that differ exactly one comes first.
pub proof fn lemma_bytes_total(a: Seq<u8>, b: Seq<u8>)
    ensures
        bytes_before(a, b) || bytes_before(b, a) || a == b,
        !(bytes_before(a, b) && bytes_before(b, a)),
        a == b ==> !bytes_before(a, b),
    decreases a.len(),
{
    if a.len() > 0 && b.len() > 0 && a[0] == b[0] {
        lemma_bytes_total(a.drop_first(), b.drop_first());
        if a.drop_first() == b.drop_first() {
            assert(a =~= seq![a[0]] + a.drop_first());
            assert(b =~= seq![b[0]] + b.drop_first());
        }
    } else if a.len() == 0 && b.len() == 0 {
        assert(a =~= b);
    }
}

/// What comes before what comes before comes before.
pub proof fn lemma_bytes_transitive(a: Seq<u8>, b: Seq<u8>, c: Seq<u8>)
    requires
        bytes_before(a, b),
        bytes_before(b, c),
    ensures
        bytes_before(a, c),
    decreases a.len(),
{
    if a.len() > 0 && b.len() > 0 && c.len() > 0 && a[0] == b[0] && b[0] == c[0] {
        lemma_bytes_transitive(a.drop_first(), b.drop_first(), c.drop_first());
    }
}

/// Extended attributes by their names. The last counts of several that have one name.
pub open spec fn xattr_map(x: Seq<Xattr>) -> Map<Seq<u8>, Seq<u8>>
    decreases x.len(),
{
    if x.len() == 0 {
        Map::empty()
    } else {
        xattr_map(x.drop_last()).insert(x.last().name@, x.last().value@)
    }
}

/// The names of extended attributes are those that are listed.
proof fn lemma_xattr_names(x: Seq<Xattr>)
    ensures
        forall|i: int| 0 <= i < x.len() ==> xattr_map(x).contains_key((#[trigger] x[i]).name@),
        forall|n: Seq<u8>| #[trigger]
            xattr_map(x).contains_key(n) ==> exists|i: int|
                0 <= i < x.len() && (#[trigger] x[i]).name@ == n,
    decreases x.len(),
{
    if x.len() > 0 {
        let front = x.drop_last();
        lemma_xattr_names(front);
        assert forall|i: int| 0 <= i < x.len() implies xattr_map(x).contains_key(
            (#[trigger] x[i]).name@,
        ) by {
            if i < front.len() {
                assert(front[i] == x[i]);
            }
        }
        assert forall|n: Seq<u8>| #[trigger] xattr_map(x).contains_key(n) implies exists|i: int|
            0 <= i < x.len() && (#[trigger] x[i]).name@ == n by {
            if n == x.last().name@ {
                assert(x[x.len() - 1].name@ == n);
            } else {
                assert(xattr_map(front).contains_key(n));
                let i = choose|i: int| 0 <= i < front.len() && (#[trigger] front[i]).name@ == n;
                assert(x[i].name@ == n);
            }
        }
    }
}

/// The value of an extended attribute.
fn find_xattr<'a>(x: &'a Vec<Xattr>, name: &Vec<u8>) -> (r: Option<&'a Vec<u8>>)
    ensures
        match r {
            Some(v) => xattr_map(x@).contains_key(name@) && xattr_map(x@)[name@] == v@,
            None => !xattr_map(x@).contains_key(name@),
        },
{
    let mut found: Option<&'a Vec<u8>> = None;
    let mut i: usize = 0;
    while i < x.len()
        invariant
            i <= x@.len(),
            match found {
                Some(v) => xattr_map(x@.take(i as int)).contains_key(name@) && xattr_map(
                    x@.take(i as int),
                )[name@] == v@,
                None => !xattr_map(x@.take(i as int)).contains_key(name@),
            },
        decreases x@.len() - i,
    {
        assert(x@.take(i + 1).drop_last() =~= x@.take(i as int));
        assert(x@.take(i + 1).last() == x@[i as int]);
        if same_bytes(x[i].name.as_slice(), name.as_slice()) {
            found = Some(&x[i].value);
        }
        i += 1;
    }
    assert(x@.take(i as int) =~= x@);
    found
}

/// Whether all that one list of extended attributes says, another says too.
fn xattrs_within(a: &Vec<Xattr>, b: &Vec<Xattr>) -> (r: bool)
    ensures
        r == xattr_map(a@).submap_of(xattr_map(b@)),
{
    proof {
        lemma_xattr_names(a@);
    }
    let mut i: usize = 0;
    while i < a.len()
        invariant
            i <= a@.len(),
            forall|k: int|
                0 <= k < a@.len() ==> xattr_map(a@).contains_key((#[trigger] a@[k]).name@),
            forall|k: int|
                0 <= k < i ==> xattr_map(b@).contains_key((#[trigger] a@[k]).name@) && xattr_map(
                    b@,
                )[a@[k].name@] == xattr_map(a@)[a@[k].name@],
        decreases a@.len() - i,
    {
        let name = &a[i].name;
        assert(a@[i as int].name == *name);
        match (find_xattr(a, name), find_xattr(b, name)) {
            (Some(x), Some(y)) => {
                if !same_bytes(x.as_slice(), y.as_slice()) {
                    assert(xattr_map(a@).dom().contains(name@));
                    return false;
                }
            },
            _ => {
                assert(xattr_map(a@).dom().contains(name@));
                return false;
            },
        }
        i += 1;
    }
    assert forall|n: Seq<u8>| #[trigger] xattr_map(a@).dom().contains(n) implies xattr_map(
        b@,
    ).dom().contains(n) && xattr_map(a@)[n] == xattr_map(b@)[n] by {
        assert(xattr_map(a@).contains_key(n));
        let k = choose|k: int| 0 <= k < a@.len() && (#[trigger] a@[k]).name@ == n;
        assert(a@[k].name@ == n);
    }
    true
}

/// Whether two files have the same owner, group, mode, time of change and extended attributes, in
/// whatever order these come.
pub open spec fn same_stat(a: Stat, b: Stat) -> bool {
    &&& a.st_uid == b.st_uid
    &&& a.st_gid == b.st_gid
    &&& a.st_mode == b.st_mode
    &&& a.st_mtim_sec == b.st_mtim_sec
    &&& xattr_map(a.xattrs@) == xattr_map(b.xattrs@)
}

/// Whether two files have the same owner, group, mode, time of change and extended attributes.
pub fn stat_eq(this: &Stat, other: &Stat) -> (r: bool)
    ensures
        r == same_stat(*this, *other),
{
    if this.st_uid != other.st_uid || this.st_gid != other.st_gid || this.st_mode != other.st_mode
        || this.st_mtim_sec != other.st_mtim_sec {
        return false;
    }
    proof {
        xattr_map(this.xattrs@).lemma_submap_eq_iff(xattr_map(other.xattrs@));
    }
    xattrs_within(&this.xattrs, &other.xattrs) && xattrs_within(&other.xattrs, &this.xattrs)
}

/// A path with a name behind it.
pub open spec fn child(path: Seq<u8>, name: Seq<u8>) -> Seq<u8> {
    if path.len() == 0 {
        name
    } else {
        path.push(47) + name
    }
}

/// A path with a name behind it.
pub fn child_path(path: &Vec<u8>, name: &Vec<u8>) -> (r: Vec<u8>)
    ensures
        r@ == child(path@, name@),
{
    let mut r: Vec<u8> = Vec::new();
    if path.len() > 0 {
        r.extend_from_slice(path.as_slice());
        r.push(47);
    }
    r.extend_from_slice(name.as_slice());
    assert(r@ =~= child(path@, name@));
    r
}

/// Where a name stands in a directory from the `i`-th entry on; the number of entries where it does
/// not.
pub open spec fn entry_from(d: Directory, name: Seq<u8>, i: int) -> int
    decreases d.entries@.len() - i,
{
    if i >= d.entries@.len() {
        d.entries@.len() as int
    } else if d.entries@[i].name@ == name {
        i
    } else {
        entry_from(d, name, i + 1)
    }
}

/// What a name stands for in a directory.
pub open spec fn lookup(d: Directory, name: Seq<u8>) -> Option<Inode> {
    let i = entry_from(d, name, 0);
    if i < d.entries@.len() {
        Some(d.entries@[i].inode)
    } else {
        None
    }
}

/// All files in the first `n` entries of a directory, by their paths.
pub open spec fn files_upto(d: Directory, path: Seq<u8>, n: nat) -> Seq<Seq<u8>>
    decreases d, n,
{
    if n == 0 || n > d.entries@.len() {
        Seq::empty()
    } else {
        let e = d.entries@[n - 1];
        files_upto(d, path, (n - 1) as nat) + match e.inode {
            Inode::Directory(sub) => files_upto(sub, child(path, e.name@), sub.entries@.len()),
            Inode::Leaf(_) => seq![child(path, e.name@)],
        }
    }
}

/// All files in a directory, by their paths from it.
pub open spec fn all_files(d: Directory) -> Seq<Seq<u8>> {
    files_upto(d, Seq::empty(), d.entries@.len())
}

/// Whether two files differ: in the digest of what they hold, in their verity digest, which alone
/// tells what a sealed file holds, or in their attributes.
pub open spec fn leaf_changed(a: Leaf, b: Leaf) -> bool {
    ||| a.content.content_hash@ != b.content.content_hash@
    ||| text::opt_view(a.content.verity) != text::opt_view(b.content.verity)
    ||| !same_stat(a.stat, b.stat)
}

/// Whether two files have the same content, as far as is known.
fn same_content(a: &CustomMetadata, b: &CustomMetadata) -> (r: bool)
    ensures
        r == (a.content_hash@ == b.content_hash@ && text::opt_view(a.verity) == text::opt_view(
            b.verity,
        )),
{
    if !text::same(a.content_hash.as_str(), b.content_hash.as_str()) {
        return false;
    }
    match (&a.verity, &b.verity) {
        (Some(x), Some(y)) => text::same(x.as_str(), y.as_str()),
        (None, None) => true,
        _ => false,
    }
}

/// What the first `n` entries of the current directory add to the pristine one. A directory that is
/// added stands for itself and for the files in it. All come by their paths from the top.
pub open spec fn added_upto(p: Directory, c: Directory, path: Seq<u8>, n: nat) -> Seq<Seq<u8>>
    decreases c, n,
{
    if n == 0 || n > c.entries@.len() {
        Seq::empty()
    } else {
        let e = c.entries@[n - 1];
        let here = child(path, e.name@);
        added_upto(p, c, path, (n - 1) as nat) + match (e.inode, lookup(p, e.name@)) {
            (Inode::Directory(cd), Some(Inode::Directory(pd))) => added_upto(
                pd,
                cd,
                here,
                cd.entries@.len(),
            ),
            (Inode::Directory(cd), None) => seq![here] + files_upto(cd, here, cd.entries@.len()),
            (Inode::Leaf(_), None) => seq![here],
            _ => Seq::empty(),
        }
    }
}

/// What the first `n` entries of the current directory change of the pristine one: files that
/// differ, and what turned from a file into a directory or the other way round.
pub open spec fn modified_upto(p: Directory, c: Directory, path: Seq<u8>, n: nat) -> Seq<Seq<u8>>
    decreases c, n,
{
    if n == 0 || n > c.entries@.len() {
        Seq::empty()
    } else {
        let e = c.entries@[n - 1];
        let here = child(path, e.name@);
        modified_upto(p, c, path, (n - 1) as nat) + match (e.inode, lookup(p, e.name@)) {
            (Inode::Directory(cd), Some(Inode::Directory(pd))) => modified_upto(
                pd,
                cd,
                here,
                cd.entries@.len(),
            ),
            (Inode::Directory(_), Some(Inode::Leaf(_))) => seq![here],
            (Inode::Leaf(_), Some(Inode::Directory(_))) => seq![here],
            (Inode::Leaf(cl), Some(Inode::Leaf(pl))) => if leaf_changed(pl, cl) {
                seq![here]
            } else {
                Seq::empty()
            },
            (_, None) => Seq::empty(),
        }
    }
}

/// What the current directory lacks of the first `n` entries of the pristine one.
pub open spec fn removed_upto(p: Directory, c: Directory, path: Seq<u8>, n: nat) -> Seq<Seq<u8>>
    decreases p, n,
{
    if n == 0 || n > p.entries@.len() {
        Seq::empty()
    } else {
        let e = p.entries@[n - 1];
        let here = child(path, e.name@);
        removed_upto(p, c, path, (n - 1) as nat) + match (e.inode, lookup(c, e.name@)) {
            (Inode::Directory(pd), Some(Inode::Directory(cd))) => removed_upto(
                pd,
                cd,
                here,
                pd.entries@.len(),
            ),
            (_, None) => seq![here],
            _ => Seq::empty(),
        }
    }
}

/// What the current directory adds to the pristine one.
pub open spec fn added(p: Directory, c: Directory) -> Seq<Seq<u8>> {
    added_upto(p, c, Seq::empty(), c.entries@.len())
}

/// What the current directory changes of the pristine one.
pub open spec fn modified(p: Directory, c: Directory) -> Seq<Seq<u8>> {
    modified_upto(p, c, Seq::empty(), c.entries@.len())
}

/// What the current directory lacks of the pristine one.
pub open spec fn removed(p: Directory, c: Directory) -> Seq<Seq<u8>> {
    removed_upto(p, c, Seq::empty(), p.entries@.len())
}

fn find_entry<'a>(d: &'a Directory, name: &Vec<u8>) -> (r: Option<&'a Inode>)
    ensures
        match r {
            Some(i) => lookup(*d, name@) == Some(*i),
            None => lookup(*d, name@) is None,
        },
{
    let mut i: usize = 0;
    while i < d.entries.len()
        invariant
            i <= d.entries@.len(),
            entry_from(*d, name@, 0) == entry_from(*d, name@, i as int),
        decreases d.entries@.len() - i,
    {
        if same_bytes(d.entries[i].name.as_slice(), name.as_slice()) {
            return Some(&d.entries[i].inode);
        }
        i += 1;
    }
    None
}

fn push_path(v: &mut Vec<Vec<u8>>, path: Vec<u8>)
    ensures
        byte_views(final(v)@) == byte_views(old(v)@).push(path@),
{
    v.push(path);
    assert(byte_views(v@) =~= byte_views(old(v)@).push(path@));
}

/// Appends all files in a directory.
fn collect(d: &Directory, path: &Vec<u8>, files: &mut Vec<Vec<u8>>)
    ensures
        byte_views(final(files)@) == byte_views(old(files)@) + files_upto(
            *d,
            path@,
            d.entries@.len(),
        ),
    decreases *d,
{
    let mut i: usize = 0;
    while i < d.entries.len()
        invariant
            i <= d.entries@.len(),
            byte_views(files@) == byte_views(old(files)@) + files_upto(*d, path@, i as nat),
        decreases d.entries@.len() - i,
    {
        let e = &d.entries[i];
        let here = child_path(path, &e.name);
        let ghost before = byte_views(files@);
        match &e.inode {
            Inode::Directory(sub) => {
                assert(decreases_to!(*d => *sub));
                collect(sub, &here, files);
            },
            Inode::Leaf(_) => {
                push_path(files, here);
            },
        }
        i += 1;
        assert(byte_views(files@) =~= byte_views(old(files)@) + files_upto(*d, path@, i as nat));
    }
}

/// All files in a directory, by their paths from it.
pub fn collect_all_files(root: &Directory) -> (r: Vec<Vec<u8>>)
    ensures
        byte_views(r@) == all_files(*root),
{
    let mut files: Vec<Vec<u8>> = Vec::new();
    let path: Vec<u8> = Vec::new();
    collect(root, &path, &mut files);
    assert(byte_views(files@) =~= all_files(*root));
    files
}

/// Adds to a difference what the current directory adds and changes. `path` is where the two
/// directories are.
pub fn compute_diff_root(pristine: &Directory, current: &Directory, path: &Vec<u8>, diff: &mut Diff)
    ensures
        byte_views(final(diff).added@) == byte_views(old(diff).added@) + added_upto(
            *pristine,
            *current,
            path@,
            current.entries@.len(),
        ),
        byte_views(final(diff).modified@) == byte_views(old(diff).modified@) + modified_upto(
            *pristine,
            *current,
            path@,
            current.entries@.len(),
        ),
        final(diff).removed == old(diff).removed,
    decreases *current,
{
    let mut i: usize = 0;
    let ghost a0 = byte_views(old(diff).added@);
    let ghost m0 = byte_views(old(diff).modified@);
    while i < current.entries.len()
        invariant
            i <= current.entries@.len(),
            byte_views(diff.added@) == a0 + added_upto(*pristine, *current, path@, i as nat),
            byte_views(diff.modified@) == m0 + modified_upto(
                *pristine,
                *current,
                path@,
                i as nat,
            ),
            diff.removed == old(diff).removed,
        decreases current.entries@.len() - i,
    {
        let e = &current.entries[i];
        let here = child_path(path, &e.name);
        let ghost a1 = byte_views(diff.added@);
        let ghost m1 = byte_views(diff.modified@);
        match (&e.inode, find_entry(pristine, &e.name)) {
            (Inode::Directory(cd), Some(Inode::Directory(pd))) => {
                assert(decreases_to!(*current => *cd));
                compute_diff_root(pd, cd, &here, diff);
            },
            (Inode::Directory(cd), None) => {
                push_path(&mut diff.added, child_path(path, &e.name));
                collect(cd, &here, &mut diff.added);
            },
            (Inode::Directory(_), Some(Inode::Leaf(_))) => {
                push_path(&mut diff.modified, here);
            },
            (Inode::Leaf(cl), Some(Inode::Leaf(pl))) => {
                if !same_content(&pl.content, &cl.content) || !stat_eq(&pl.stat, &cl.stat) {
                    push_path(&mut diff.modified, here);
                }
            },
            (Inode::Leaf(_), Some(Inode::Directory(_))) => {
                push_path(&mut diff.modified, here);
            },
            (Inode::Leaf(_), None) => {
                push_path(&mut diff.added, here);
            },
        }
        i += 1;
        assert(byte_views(diff.added@) =~= a0 + added_upto(*pristine, *current, path@, i as nat));
        assert(byte_views(diff.modified@) =~= m0 + modified_upto(
            *pristine,
            *current,
            path@,
            i as nat,
        ));
    }
}

/// Adds to a difference what the current directory lacks of the pristine one. What turned from a file
/// into a directory or the other way round is not lacking: its name still stands for something.
pub fn get_deletions(pristine: &Directory, current: &Directory, path: &Vec<u8>, diff: &mut Diff)
    ensures
        byte_views(final(diff).removed@) == byte_views(old(diff).removed@) + removed_upto(
            *pristine,
            *current,
            path@,
            pristine.entries@.len(),
        ),
        final(diff).added == old(diff).added,
        final(diff).modified == old(diff).modified,
    decreases *pristine,
{
    let mut i: usize = 0;
    let ghost r0 = byte_views(old(diff).removed@);
    while i < pristine.entries.len()
        invariant
            i <= pristine.entries@.len(),
            byte_views(diff.removed@) == r0 + removed_upto(*pristine, *current, path@, i as nat),
            diff.added == old(diff).added,
            diff.modified == old(diff).modified,
        decreases pristine.entries@.len() - i,
    {
        let e = &pristine.entries[i];
        let here = child_path(path, &e.name);
        match (&e.inode, find_entry(current, &e.name)) {
            (Inode::Directory(pd), Some(Inode::Directory(cd))) => {
                assert(decreases_to!(*pristine => *pd));
                get_deletions(pd, cd, &here, diff);
            },
            (_, None) => {
                push_path(&mut diff.removed, here);
            },
            _ => {},
        }
        i += 1;
        assert(byte_views(diff.removed@) =~= r0 + removed_upto(
            *pristine,
            *current,
            path@,
            i as nat,
        ));
    }
}

/// The difference between the `/etc` that a system was made from and its current one.
pub fn compute_diff(pristine: &Directory, current: &Directory) -> (r: Diff)
    ensures
        byte_views(r.added@) == added(*pristine, *current),
        byte_views(r.modified@) == modified(*pristine, *current),
        byte_views(r.removed@) == removed(*pristine, *current),
{
    let mut diff = Diff { added: Vec::new(), modified: Vec::new(), removed: Vec::new() };
    let path: Vec<u8> = Vec::new();
    compute_diff_root(pristine, current, &path, &mut diff);
    get_deletions(pristine, current, &path, &mut diff);
    assert(byte_views(diff.added@) =~= added(*pristine, *current));
    assert(byte_views(diff.modified@) =~= modified(*pristine, *current));
    assert(byte_views(diff.removed@) =~= removed(*pristine, *current));
    diff
}

impl Directory {
    /// Whether the names are in order, so that none comes twice.
    pub open spec fn wf(&self) -> bool {
        forall|i: int, j: int|
            0 <= i < j < self.entries@.len() ==> bytes_before(
                (#[trigger] self.entries@[i]).name@,
                (#[trigger] self.entries@[j]).name@,
            )
    }

    /// An empty directory.
    pub fn new() -> (r: Self)
        ensures
            r.wf(),
            r.entries@.len() == 0,
    {
        Directory { entries: Vec::new() }
    }

    /// Puts something into a directory, in place of what the name stood for.
    pub fn insert(&mut self, name: Vec<u8>, inode: Inode)
        requires
            old(self).wf(),
        ensures
            final(self).wf(),
            lookup(*final(self), name@) == Some(inode),
            forall|other: Seq<u8>|
                other != name@ ==> #[trigger] lookup(*final(self), other) == lookup(
                    *old(self),
                    other,
                ),
    {
        let mut i: usize = 0;
        while i < self.entries.len() && bytes_less(&self.entries[i].name, &name)
            invariant
                i <= self.entries@.len(),
                *self == *old(self),
                forall|j: int| 0 <= j < i ==> bytes_before((#[trigger] self.entries@[j]).name@, name@),
            decreases self.entries@.len() - i,
        {
            i += 1;
        }
        let ghost before = self.entries@;
        let entry = Entry { name, inode };
        let replace = i < self.entries.len() && same_bytes(
            self.entries[i].name.as_slice(),
            entry.name.as_slice(),
        );
        if replace {
            self.entries.set(i, entry);
        } else {
            self.entries.insert(i, entry);
        }
        proof {
            let after = self.entries@;
            if replace {
                assert forall|a: int, b: int| 0 <= a < b < after.len() implies bytes_before(
                    (#[trigger] after[a]).name@,
                    (#[trigger] after[b]).name@,
                ) by {
                    assert(after[a].name@ == before[a].name@ && after[b].name@ == before[b].name@);
                }
            } else {
                if i < before.len() {
                    lemma_bytes_total(before[i as int].name@, name@);
                }
                assert forall|a: int, b: int| 0 <= a < b < after.len() implies bytes_before(
                    (#[trigger] after[a]).name@,
                    (#[trigger] after[b]).name@,
                ) by {
                    let x = if a < i {
                        a
                    } else {
                        a - 1
                    };
                    let y = if b < i {
                        b
                    } else {
                        b - 1
                    };
                    if b == i {
                        assert(after[a].name@ == before[a].name@);
                    } else if a == i {
                        assert(after[b].name@ == before[b - 1].name@);
                        if b - 1 > i {
                            lemma_bytes_transitive(
                                name@,
                                before[i as int].name@,
                                before[b - 1].name@,
                            );
                        }
                    } else {
                        assert(after[a].name@ == before[x].name@ && after[b].name@
                            == before[y].name@);
                    }
                }
            }
            assert(self.wf());
            assert(self.entries@[i as int] == entry);
            lemma_lookup(*self, i as int);
            assert forall|other: Seq<u8>| other != name@ implies #[trigger] lookup(*self, other)
                == lookup(*old(self), other) by {
                lemma_entry_from(*self, other, 0);
                lemma_entry_from(*old(self), other, 0);
                let k = entry_from(*self, other, 0);
                let m = entry_from(*old(self), other, 0);
                if k < after.len() {
                    let x = if replace || k < i {
                        k
                    } else {
                        k - 1
                    };
                    assert(k != i);
                    assert(before[x].name@ == other && before[x] == after[k]);
                    lemma_lookup(*old(self), x);
                } else if m < before.len() {
                    let y = if replace || m < i {
                        m
                    } else {
                        m + 1
                    };
                    assert(after[y].name@ == other || y == i);
                    assert(replace && m == i ==> before[m].name@ == name@);
                    assert(after[y].name@ == other);
                    assert(false);
                }
            }
        }
    }
}

proof fn lemma_entry_from(d: Directory, name: Seq<u8>, i: int)
    requires
        0 <= i <= d.entries@.len(),
    ensures
        i <= entry_from(d, name, i) <= d.entries@.len(),
        entry_from(d, name, i) < d.entries@.len() ==> d.entries@[entry_from(d, name, i)].name@
            == name,
        forall|j: int| i <= j < entry_from(d, name, i) ==> (#[trigger] d.entries@[j]).name@ != name,
    decreases d.entries@.len() - i,
{
    if i < d.entries@.len() && d.entries@[i].name@ != name {
        lemma_entry_from(d, name, i + 1);
    }
}

/// In a directory in order, each entry is what its name stands for.
pub proof fn lemma_lookup(d: Directory, i: int)
    requires
        d.wf(),
        0 <= i < d.entries@.len(),
    ensures
        lookup(d, d.entries@[i].name@) == Some(d.entries@[i].inode),
{
    let name = d.entries@[i].name@;
    lemma_entry_from(d, name, 0);
    let k = entry_from(d, name, 0);
    if k != i {
        if k < i {
            lemma_bytes_total(d.entries@[k].name@, d.entries@[i].name@);
        } else {
            assert(d.entries@[i].name@ != name);
        }
    }
}

/// What something in a directory counts as.
#[derive(Debug, Clone, Copy, PartialEq, Eq, Structural)]
pub enum EntryClass {
    Directory,
    Leaf,
    /// It is neither a directory nor a file nor a symbolic link.
    Ignored,
}

/// What something in a directory counts as.
pub fn classify(is_dir: bool, is_symlink: bool, is_file: bool) -> (r: EntryClass)
    ensures
        r == if is_dir {
            EntryClass::Directory
        } else if is_symlink || is_file {
            EntryClass::Leaf
        } else {
            EntryClass::Ignored
        },
{
    if is_dir {
        EntryClass::Directory
    } else if is_symlink || is_file {
        EntryClass::Leaf
    } else {
        EntryClass::Ignored
    }
}

/// A file with these numbers, and without extended attributes.
pub fn plain_stat(st_mode: u32, st_uid: u32, st_gid: u32, st_mtim_sec: i64) -> (r: Stat)
    ensures
        r.st_mode == st_mode,
        r.st_uid == st_uid,
        r.st_gid == st_gid,
        r.st_mtim_sec == st_mtim_sec,
        r.xattrs@.len() == 0,
{
    Stat { st_mode, st_uid, st_gid, st_mtim_sec, xattrs: Vec::new() }
}

/// What is known of a file that is sealed: its content is told by its verity digest alone.
pub fn sealed_content(verity: String) -> (r: CustomMetadata)
    ensures
        r.content_hash@ == ""@,
        r.verity == Some(verity),
{
    CustomMetadata::new("".to_owned(), Some(verity))
}

/// What is known of a file that is not sealed: the digest of its content, or of where a symbolic
/// link leads. Nothing where OpenSSL fails.
pub fn hashed_content(content: &[u8]) -> (r: Option<CustomMetadata>)
    ensures
        r matches Some(m) ==> m.verity is None && m.content_hash@ == digest::hex_of(
            digest::sha256(content@),
        ),
{
    let parts: Vec<&[u8]> = vec![content];
    assert(digest::concatenated(parts@) =~= content@) by {
        reveal_with_fuel(digest::concatenated, 2);
        assert(parts@.drop_last() =~= Seq::<&[u8]>::empty());
    }
    digested_content(digest::sha256_hex(&parts))
}

/// What is known of a file that is not sealed, given the digest of its content: that digest, and no
/// verity digest. Nothing is known exactly where there is no digest.
pub fn digested_content(content_hash: Option<String>) -> (r: Option<CustomMetadata>)
    ensures
        match content_hash {
            Some(h) => r matches Some(m) && m.content_hash@ == h@ && m.verity is None,
            None => r is None,
        },
{
    match content_hash {
        Some(h) => Some(CustomMetadata::new(h, None)),
        None => None,
    }
}

/// Whether a directory and all directories in its first `n` entries are in order.
pub open spec fn deep_wf_upto(d: Directory, n: nat) -> bool
    decreases d, n,
{
    if n == 0 || n > d.entries@.len() {
        d.wf()
    } else {
        deep_wf_upto(d, (n - 1) as nat) && match d.entries@[n - 1].inode {
            Inode::Directory(sub) => deep_wf_upto(sub, sub.entries@.len()),
            Inode::Leaf(_) => true,
        }
    }
}

/// Whether a directory and all directories in it are in order.
pub open spec fn deep_wf(d: Directory) -> bool {
    deep_wf_upto(d, d.entries@.len())
}

/// A system whose `/etc` is as it was made has no difference: nothing is added, changed or removed.
pub proof fn law_unchanged(d: Directory)
    requires
        deep_wf(d),
    ensures
        added(d, d).len() == 0,
        modified(d, d).len() == 0,
        removed(d, d).len() == 0,
{
    lemma_deep_wf(d, d.entries@.len());
    lemma_unchanged(d, Seq::empty(), d.entries@.len());
}

proof fn lemma_unchanged(d: Directory, path: Seq<u8>, n: nat)
    requires
        n <= d.entries@.len(),
        d.wf(),
        deep_wf_upto(d, n),
    ensures
        added_upto(d, d, path, n).len() == 0,
        modified_upto(d, d, path, n).len() == 0,
        removed_upto(d, d, path, n).len() == 0,
    decreases d, n,
{
    if n > 0 {
        let e = d.entries@[n - 1];
        lemma_unchanged(d, path, (n - 1) as nat);
        lemma_lookup(d, n - 1);
        match e.inode {
            Inode::Directory(sub) => {
                lemma_deep_wf(sub, sub.entries@.len());
                lemma_unchanged(sub, child(path, e.name@), sub.entries@.len());
            },
            Inode::Leaf(_) => {},
        }
    }
}

proof fn lemma_deep_wf(d: Directory, n: nat)
    requires
        deep_wf_upto(d, n),
    ensures
        d.wf(),
    decreases n,
{
    if n > 0 && n <= d.entries@.len() {
        lemma_deep_wf(d, (n - 1) as nat);
    }
}

/// What changed between two directories at a path is told in full: a name that only the current one
/// has is added, one that only the pristine one has is removed, and what both have is changed if it
/// is a file with another content, another seal or other attributes, or turned from a file into a
/// directory or the other way round. `i` is the place of the name.
pub proof fn law_reported(p: Directory, c: Directory, path: Seq<u8>, i: int)
    ensures
        0 <= i < c.entries@.len() && lookup(p, c.entries@[i].name@) is None ==> added_upto(
            p,
            c,
            path,
            c.entries@.len(),
        ).contains(child(path, c.entries@[i].name@)),
        0 <= i < p.entries@.len() && lookup(c, p.entries@[i].name@) is None ==> removed_upto(
            p,
            c,
            path,
            p.entries@.len(),
        ).contains(child(path, p.entries@[i].name@)),
        0 <= i < c.entries@.len() && (match (c.entries@[i].inode, lookup(p, c.entries@[i].name@)) {
            (Inode::Leaf(cl), Some(Inode::Leaf(pl))) => leaf_changed(pl, cl),
            (Inode::Leaf(_), Some(Inode::Directory(_))) => true,
            (Inode::Directory(_), Some(Inode::Leaf(_))) => true,
            _ => false,
        }) ==> modified_upto(p, c, path, c.entries@.len()).contains(
            child(path, c.entries@[i].name@),
        ),
{
    if 0 <= i < c.entries@.len() {
        let here = child(path, c.entries@[i].name@);
        lemma_added_grows(p, c, path, (i + 1) as nat, c.entries@.len());
        lemma_modified_grows(p, c, path, (i + 1) as nat, c.entries@.len());
        let a = added_upto(p, c, path, (i + 1) as nat);
        let before = added_upto(p, c, path, i as nat);
        if lookup(p, c.entries@[i].name@) is None {
            assert(a[before.len() as int] == here);
            assert(a.contains(here));
        }
        let m = modified_upto(p, c, path, (i + 1) as nat);
        let mb = modified_upto(p, c, path, i as nat);
        if m == mb + seq![here] {
            assert(m[mb.len() as int] == here);
            assert(m.contains(here));
        }
    }
    if 0 <= i < p.entries@.len() {
        let here = child(path, p.entries@[i].name@);
        lemma_removed_grows(p, c, path, (i + 1) as nat, p.entries@.len());
        let r = removed_upto(p, c, path, (i + 1) as nat);
        let before = removed_upto(p, c, path, i as nat);
        if lookup(c, p.entries@[i].name@) is None {
            assert(r[before.len() as int] == here);
            assert(r.contains(here));
        }
    }
}

/// Whether two directories are the same but for one thing, which is a file in one of them and a
/// directory in the other. `trail` tells where it is: the place of the directory that it is in, of
/// the directory in that one, and so on, and at last its own.
pub open spec fn turned(p: Directory, c: Directory, trail: Seq<int>) -> bool
    decreases trail.len(),
{
    &&& trail.len() > 0
    &&& p.entries@.len() == c.entries@.len()
    &&& 0 <= trail[0] < c.entries@.len()
    &&& p.entries@[trail[0]].name@ == c.entries@[trail[0]].name@
    &&& forall|j: int|
        0 <= j < c.entries@.len() && j != trail[0] ==> #[trigger] p.entries@[j] == c.entries@[j]
    &&& match (p.entries@[trail[0]].inode, c.entries@[trail[0]].inode) {
        (Inode::Directory(pd), Inode::Directory(cd)) => turned(pd, cd, trail.drop_first()),
        (Inode::Leaf(_), Inode::Leaf(_)) => false,
        _ => trail.len() == 1,
    }
}

/// The path of what a trail leads to.
pub open spec fn trail_path(c: Directory, path: Seq<u8>, trail: Seq<int>) -> Seq<u8>
    decreases trail.len(),
{
    if trail.len() == 0 {
        path
    } else {
        let here = child(path, c.entries@[trail[0]].name@);
        match c.entries@[trail[0]].inode {
            Inode::Directory(cd) => trail_path(cd, here, trail.drop_first()),
            Inode::Leaf(_) => here,
        }
    }
}

/// A file that turned into a directory is a change, whatever the directory holds, and so is a
/// directory that turned into a file. It is neither added nor removed, and where all else is the
/// same it is the only difference.
pub proof fn law_turned(p: Directory, c: Directory, trail: Seq<int>)
    requires
        deep_wf(p),
        deep_wf(c),
        turned(p, c, trail),
    ensures
        added(p, c).len() == 0,
        modified(p, c) == seq![trail_path(c, Seq::empty(), trail)],
        removed(p, c).len() == 0,
{
    lemma_turned(p, c, Seq::empty(), trail, c.entries@.len());
}

proof fn lemma_turned(p: Directory, c: Directory, path: Seq<u8>, trail: Seq<int>, n: nat)
    requires
        deep_wf(p),
        deep_wf(c),
        turned(p, c, trail),
        n <= c.entries@.len(),
    ensures
        added_upto(p, c, path, n).len() == 0,
        modified_upto(p, c, path, n) == if n > trail[0] {
            seq![trail_path(c, path, trail)]
        } else {
            Seq::empty()
        },
        removed_upto(p, c, path, n).len() == 0,
    decreases c, n,
{
    reveal_with_fuel(turned, 2);
    reveal_with_fuel(trail_path, 2);
    lemma_deep_wf(p, p.entries@.len());
    lemma_deep_wf(c, c.entries@.len());
    if n > 0 {
        let e = c.entries@[n - 1];
        let here = child(path, e.name@);
        lemma_turned(p, c, path, trail, (n - 1) as nat);
        lemma_lookup(p, n - 1);
        lemma_lookup(c, n - 1);
        lemma_deep_wf_part(p, p.entries@.len(), n - 1);
        lemma_deep_wf_part(c, c.entries@.len(), n - 1);
        if n - 1 == trail[0] {
            match (p.entries@[n - 1].inode, e.inode) {
                (Inode::Directory(pd), Inode::Directory(cd)) => {
                    lemma_turned(pd, cd, here, trail.drop_first(), cd.entries@.len());
                },
                _ => {
                    assert(trail.drop_first() =~= Seq::<int>::empty());
                },
            }
        } else {
            assert(p.entries@[n - 1] == e);
            match e.inode {
                Inode::Directory(sub) => {
                    lemma_deep_wf(sub, sub.entries@.len());
                    lemma_unchanged(sub, here, sub.entries@.len());
                },
                Inode::Leaf(_) => {},
            }
        }
    }
}

proof fn lemma_deep_wf_part(d: Directory, n: nat, i: int)
    requires
        deep_wf_upto(d, n),
        0 <= i < n <= d.entries@.len(),
    ensures
        d.entries@[i].inode matches Inode::Directory(sub) ==> deep_wf(sub),
    decreases n,
{
    if i < n - 1 {
        lemma_deep_wf_part(d, (n - 1) as nat, i);
    }
}

/// All that an added directory holds is added with it, by its path from the top. `i` is the place of
/// the directory.
pub proof fn law_added_below(p: Directory, c: Directory, path: Seq<u8>, i: int)
    ensures
        0 <= i < c.entries@.len() && lookup(p, c.entries@[i].name@) is None ==> (
        c.entries@[i].inode matches Inode::Directory(cd) ==> forall|x: Seq<u8>| #[trigger]
            files_upto(cd, child(path, c.entries@[i].name@), cd.entries@.len()).contains(x)
                ==> added_upto(p, c, path, c.entries@.len()).contains(x) && (path.len() > 0
                || c.entries@[i].name@.len() > 0 ==> child(
                path,
                c.entries@[i].name@,
            ).push(47).is_prefix_of(x))),
{
    if 0 <= i < c.entries@.len() && lookup(p, c.entries@[i].name@) is None {
        let here = child(path, c.entries@[i].name@);
        match c.entries@[i].inode {
            Inode::Directory(cd) => {
                let files = files_upto(cd, here, cd.entries@.len());
                let before = added_upto(p, c, path, i as nat);
                let a = added_upto(p, c, path, (i + 1) as nat);
                lemma_added_grows(p, c, path, (i + 1) as nat, c.entries@.len());
                assert(a =~= before.push(here) + files);
                lemma_contains_end(before.push(here), files);
                if here.len() > 0 {
                    lemma_files_below(cd, here, cd.entries@.len());
                }
            },
            Inode::Leaf(_) => {},
        }
    }
}

proof fn lemma_files_below(d: Directory, path: Seq<u8>, n: nat)
    requires
        path.len() > 0,
    ensures
        forall|x: Seq<u8>| #[trigger]
            files_upto(d, path, n).contains(x) ==> path.push(47).is_prefix_of(x),
    decreases d, n,
{
    if 0 < n <= d.entries@.len() {
        let e = d.entries@[n - 1];
        let here = child(path, e.name@);
        lemma_files_below(d, path, (n - 1) as nat);
        let before = files_upto(d, path, (n - 1) as nat);
        let last = match e.inode {
            Inode::Directory(sub) => files_upto(sub, here, sub.entries@.len()),
            Inode::Leaf(_) => seq![here],
        };
        match e.inode {
            Inode::Directory(sub) => {
                lemma_files_below(sub, here, sub.entries@.len());
            },
            Inode::Leaf(_) => {},
        }
        assert forall|x: Seq<u8>| #[trigger] files_upto(d, path, n).contains(x) implies path.push(
            47,
        ).is_prefix_of(x) by {
            let k = files_upto(d, path, n).index_of(x);
            if k < before.len() {
                assert(before[k] == x);
                assert(before.contains(x));
            } else {
                assert(last[k - before.len()] == x);
                assert(last.contains(x));
                let top = path.push(47);
                assert(here == top + e.name@);
                match e.inode {
                    Inode::Directory(_) => {
                        let below = here.push(47);
                        assert(below.is_prefix_of(x));
                        assert forall|m: int| 0 <= m < top.len() implies top[m] == x[m] by {
                            assert(below[m] == x.subrange(0, below.len() as int)[m]);
                        }
                        assert(top =~= x.subrange(0, top.len() as int));
                    },
                    Inode::Leaf(_) => {
                        assert(x == here);
                        assert(top =~= x.subrange(0, top.len() as int));
                    },
                }
            }
        }
    }
}

/// What changed in a directory that both have is told with what changed above it: nothing is lost on
/// the way up. `i` is the place of the directory in the current one and `k` in the pristine one.
pub proof fn law_reported_below(p: Directory, c: Directory, path: Seq<u8>, i: int, k: int)
    ensures
        0 <= i < c.entries@.len() ==> match (c.entries@[i].inode, lookup(p, c.entries@[i].name@)) {
            (Inode::Directory(cd), Some(Inode::Directory(pd))) => {
                let here = child(path, c.entries@[i].name@);
                &&& forall|x: Seq<u8>| #[trigger]
                    added_upto(pd, cd, here, cd.entries@.len()).contains(x) ==> added_upto(
                        p,
                        c,
                        path,
                        c.entries@.len(),
                    ).contains(x)
                &&& forall|x: Seq<u8>| #[trigger]
                    modified_upto(pd, cd, here, cd.entries@.len()).contains(x) ==> modified_upto(
                        p,
                        c,
                        path,
                        c.entries@.len(),
                    ).contains(x)
            },
            _ => true,
        },
        0 <= k < p.entries@.len() ==> match (p.entries@[k].inode, lookup(c, p.entries@[k].name@)) {
            (Inode::Directory(pd), Some(Inode::Directory(cd))) => forall|x: Seq<u8>| #[trigger]
                removed_upto(
                    pd,
                    cd,
                    child(path, p.entries@[k].name@),
                    pd.entries@.len(),
                ).contains(x) ==> removed_upto(p, c, path, p.entries@.len()).contains(x),
            _ => true,
        },
{
    if 0 <= i < c.entries@.len() {
        let here = child(path, c.entries@[i].name@);
        lemma_added_grows(p, c, path, (i + 1) as nat, c.entries@.len());
        lemma_modified_grows(p, c, path, (i + 1) as nat, c.entries@.len());
        match (c.entries@[i].inode, lookup(p, c.entries@[i].name@)) {
            (Inode::Directory(cd), Some(Inode::Directory(pd))) => {
                lemma_contains_end(
                    added_upto(p, c, path, i as nat),
                    added_upto(pd, cd, here, cd.entries@.len()),
                );
                lemma_contains_end(
                    modified_upto(p, c, path, i as nat),
                    modified_upto(pd, cd, here, cd.entries@.len()),
                );
            },
            _ => {},
        }
    }
    if 0 <= k < p.entries@.len() {
        let here = child(path, p.entries@[k].name@);
        lemma_removed_grows(p, c, path, (k + 1) as nat, p.entries@.len());
        match (p.entries@[k].inode, lookup(c, p.entries@[k].name@)) {
            (Inode::Directory(pd), Some(Inode::Directory(cd))) => {
                lemma_contains_end(
                    removed_upto(p, c, path, k as nat),
                    removed_upto(pd, cd, here, pd.entries@.len()),
                );
            },
            _ => {},
        }
    }
}

proof fn lemma_contains_end(a: Seq<Seq<u8>>, b: Seq<Seq<u8>>)
    ensures
        forall|x: Seq<u8>| #[trigger] b.contains(x) ==> (a + b).contains(x),
{
    assert forall|x: Seq<u8>| #[trigger] b.contains(x) implies (a + b).contains(x) by {
        let k = b.index_of(x);
        assert((a + b)[a.len() + k] == x);
    }
}

proof fn lemma_added_grows(p: Directory, c: Directory, path: Seq<u8>, m: nat, n: nat)
    requires
        m <= n <= c.entries@.len(),
    ensures
        forall|x: Seq<u8>|
            added_upto(p, c, path, m).contains(x) ==> added_upto(p, c, path, n).contains(x),
    decreases n,
{
    if m < n {
        lemma_added_grows(p, c, path, m, (n - 1) as nat);
        let a = added_upto(p, c, path, (n - 1) as nat);
        let b = added_upto(p, c, path, n);
        assert forall|x: Seq<u8>| a.contains(x) implies b.contains(x) by {
            let k = a.index_of(x);
            assert(b[k] == a[k]);
        }
    }
}

proof fn lemma_modified_grows(p: Directory, c: Directory, path: Seq<u8>, m: nat, n: nat)
    requires
        m <= n <= c.entries@.len(),
    ensures
        forall|x: Seq<u8>|
            modified_upto(p, c, path, m).contains(x) ==> modified_upto(p, c, path, n).contains(x),
    decreases n,
{
    if m < n {
        lemma_modified_grows(p, c, path, m, (n - 1) as nat);
        let a = modified_upto(p, c, path, (n - 1) as nat);
        let b = modified_upto(p, c, path, n);
        assert forall|x: Seq<u8>| a.contains(x) implies b.contains(x) by {
            let k = a.index_of(x);
            assert(b[k] == a[k]);
        }
    }
}

proof fn lemma_removed_grows(p: Directory, c: Directory, path: Seq<u8>, m: nat, n: nat)
    requires
        m <= n <= p.entries@.len(),
    ensures
        forall|x: Seq<u8>|
            removed_upto(p, c, path, m).contains(x) ==> removed_upto(p, c, path, n).contains(x),
    decreases n,
{
    if m < n {
        lemma_removed_grows(p, c, path, m, (n - 1) as nat);
        let a = removed_upto(p, c, path, (n - 1) as nat);
        let b = removed_upto(p, c, path, n);
        assert forall|x: Seq<u8>| a.contains(x) implies b.contains(x) by {
            let k = a.index_of(x);
            assert(b[k] == a[k]);
        }
    }
}

/// Whether each extended attribute of a list, by its name and its value, is in another.
pub open spec fn all_among(a: Seq<Xattr>, b: Seq<Xattr>) -> bool {
    forall|i: int|
        0 <= i < a.len() ==> exists|j: int|
            0 <= j < b.len() && (#[trigger] b[j]).name@ == (#[trigger] a[i]).name@ && b[j].value@
                == a[i].value@
}

/// Whether two lists of extended attributes say the same: each attribute of one is in the other.
pub open spec fn says_same(a: Seq<Xattr>, b: Seq<Xattr>) -> bool {
    all_among(a, b) && all_among(b, a)
}

/// Whether no extended attribute comes twice.
pub open spec fn distinct_xattrs(a: Seq<Xattr>) -> bool {
    forall|i: int, j: int|
        0 <= i < j < a.len() ==> (#[trigger] a[i]).name@ != (#[trigger] a[j]).name@
}

proof fn lemma_xattr_value(a: Seq<Xattr>, i: int)
    requires
        distinct_xattrs(a),
        0 <= i < a.len(),
    ensures
        xattr_map(a).contains_key(a[i].name@),
        xattr_map(a)[a[i].name@] == a[i].value@,
    decreases a.len(),
{
    let front = a.drop_last();
    if i < front.len() {
        assert(distinct_xattrs(front)) by {
            assert forall|x: int, y: int| 0 <= x < y < front.len() implies (
            #[trigger] front[x]).name@ != (#[trigger] front[y]).name@ by {
                assert(front[x] == a[x] && front[y] == a[y]);
            }
        }
        lemma_xattr_value(front, i);
        assert(front[i] == a[i]);
        assert(a[a.len() - 1].name@ != a[i].name@);
    }
}

proof fn lemma_xattr_same(a: Seq<Xattr>, b: Seq<Xattr>)
    requires
        distinct_xattrs(a),
        distinct_xattrs(b),
    ensures
        xattr_map(a) == xattr_map(b) <==> says_same(a, b),
{
    if xattr_map(a) == xattr_map(b) {
        lemma_xattr_listed(a, b);
        lemma_xattr_listed(b, a);
    }
    if says_same(a, b) {
        lemma_xattr_among(a, b);
        lemma_xattr_among(b, a);
        assert(xattr_map(a) =~= xattr_map(b));
    }
}

proof fn lemma_xattr_among(a: Seq<Xattr>, b: Seq<Xattr>)
    requires
        distinct_xattrs(a),
        distinct_xattrs(b),
        all_among(a, b),
    ensures
        forall|n: Seq<u8>| #[trigger]
            xattr_map(a).contains_key(n) ==> xattr_map(b).contains_key(n) && xattr_map(b)[n]
                == xattr_map(a)[n],
{
    lemma_xattr_names(a);
    assert forall|n: Seq<u8>| #[trigger] xattr_map(a).contains_key(n) implies xattr_map(
        b,
    ).contains_key(n) && xattr_map(b)[n] == xattr_map(a)[n] by {
        let i = choose|i: int| 0 <= i < a.len() && (#[trigger] a[i]).name@ == n;
        lemma_xattr_value(a, i);
        let j = choose|j: int|
            0 <= j < b.len() && (#[trigger] b[j]).name@ == a[i].name@ && b[j].value@ == a[i].value@;
        lemma_xattr_value(b, j);
    }
}

proof fn lemma_xattr_listed(a: Seq<Xattr>, b: Seq<Xattr>)
    requires
        distinct_xattrs(a),
        distinct_xattrs(b),
        xattr_map(a) == xattr_map(b),
    ensures
        all_among(a, b),
{
    lemma_xattr_names(b);
    assert forall|i: int| 0 <= i < a.len() implies exists|j: int|
        0 <= j < b.len() && (#[trigger] b[j]).name@ == (#[trigger] a[i]).name@ && b[j].value@
            == a[i].value@ by {
        lemma_xattr_value(a, i);
        assert(xattr_map(b).contains_key(a[i].name@));
        let j = choose|j: int| 0 <= j < b.len() && (#[trigger] b[j]).name@ == a[i].name@;
        lemma_xattr_value(b, j);
        assert(b[j].value@ == a[i].value@);
    }
}

/// A name stands for what the entry of that name holds, and for nothing exactly if no entry has it.
pub proof fn law_lookup(d: Directory, name: Seq<u8>, i: int)
    requires
        d.wf(),
    ensures
        0 <= i < d.entries@.len() && d.entries@[i].name@ == name ==> lookup(d, name) == Some(
            d.entries@[i].inode,
        ),
        lookup(d, name) is None <==> forall|k: int|
            0 <= k < d.entries@.len() ==> (#[trigger] d.entries@[k]).name@ != name,
{
    lemma_entry_from(d, name, 0);
    if 0 <= i < d.entries@.len() && d.entries@[i].name@ == name {
        lemma_lookup(d, i);
    }
}

/// Whether a path is a given one or below it.
spec fn at_or_below(x: Seq<u8>, here: Seq<u8>) -> bool {
    x == here || here.push(47).is_prefix_of(x)
}

proof fn lemma_down(path: Seq<u8>, name: Seq<u8>, x: Seq<u8>)
    requires
        path.len() > 0,
        at_or_below(x, child(path, name)),
    ensures
        path.push(47).is_prefix_of(x),
{
    let top = path.push(47);
    let here = child(path, name);
    assert(here == top + name);
    assert forall|m: int| 0 <= m < top.len() implies top[m] == x[m] by {
        assert(here[m] == top[m]);
        if x != here {
            assert(here.push(47)[m] == x.subrange(0, here.push(47).len() as int)[m]);
        }
    }
    assert(top =~= x.subrange(0, top.len() as int));
}

proof fn lemma_apart(path: Seq<u8>, a: Seq<u8>, b: Seq<u8>)
    requires
        a != b,
        !b.contains(47),
    ensures
        !at_or_below(child(path, b), child(path, a)),
{
    let x = child(path, b);
    let here = child(path, a);
    let n: int = if path.len() == 0 {
        0
    } else {
        path.len() as int + 1
    };
    assert(x.skip(n) =~= b && here.skip(n) =~= a);
    if here.push(47).is_prefix_of(x) {
        let k = here.len() as int;
        assert(here.push(47)[k] == x.subrange(0, k + 1)[k]);
        assert(x[k] == 47);
        assert(b[k - n] == x[k]);
        assert(b.contains(b[k - n]));
    }
}

proof fn lemma_in_sum(a: Seq<Seq<u8>>, b: Seq<Seq<u8>>, x: Seq<u8>)
    ensures
        (a + b).contains(x) <==> a.contains(x) || b.contains(x),
{
    let s = a + b;
    if s.contains(x) {
        let k = s.index_of(x);
        if k < a.len() {
            assert(a[k] == x);
        } else {
            assert(b[k - a.len()] == x);
        }
    }
    if a.contains(x) {
        assert(s[a.index_of(x)] == x);
    }
    if b.contains(x) {
        assert(s[a.len() + b.index_of(x)] == x);
    }
}

/// What the `j`-th entry of the current directory adds.
spec fn adds(p: Directory, c: Directory, path: Seq<u8>, j: int) -> Seq<Seq<u8>> {
    let e = c.entries@[j];
    let here = child(path, e.name@);
    match (e.inode, lookup(p, e.name@)) {
        (Inode::Directory(cd), Some(Inode::Directory(pd))) => added_upto(
            pd,
            cd,
            here,
            cd.entries@.len(),
        ),
        (Inode::Directory(cd), None) => seq![here] + files_upto(cd, here, cd.entries@.len()),
        (Inode::Leaf(_), None) => seq![here],
        _ => Seq::empty(),
    }
}

/// What the `j`-th entry of the current directory changes.
spec fn changes(p: Directory, c: Directory, path: Seq<u8>, j: int) -> Seq<Seq<u8>> {
    let e = c.entries@[j];
    let here = child(path, e.name@);
    match (e.inode, lookup(p, e.name@)) {
        (Inode::Directory(cd), Some(Inode::Directory(pd))) => modified_upto(
            pd,
            cd,
            here,
            cd.entries@.len(),
        ),
        (Inode::Directory(_), Some(Inode::Leaf(_))) => seq![here],
        (Inode::Leaf(_), Some(Inode::Directory(_))) => seq![here],
        (Inode::Leaf(cl), Some(Inode::Leaf(pl))) => if leaf_changed(pl, cl) {
            seq![here]
        } else {
            Seq::empty()
        },
        (_, None) => Seq::empty(),
    }
}

/// What the current directory lacks of the `j`-th entry of the pristine one.
spec fn lacks(p: Directory, c: Directory, path: Seq<u8>, j: int) -> Seq<Seq<u8>> {
    let e = p.entries@[j];
    let here = child(path, e.name@);
    match (e.inode, lookup(c, e.name@)) {
        (Inode::Directory(pd), Some(Inode::Directory(cd))) => removed_upto(
            pd,
            cd,
            here,
            pd.entries@.len(),
        ),
        (_, None) => seq![here],
        _ => Seq::empty(),
    }
}

proof fn lemma_added_within(p: Directory, c: Directory, path: Seq<u8>, n: nat, x: Seq<u8>)
    requires
        n <= c.entries@.len(),
        added_upto(p, c, path, n).contains(x),
        path.len() > 0,
    ensures
        path.push(47).is_prefix_of(x),
    decreases c, n,
{
    if n > 0 {
        let j = n - 1;
        let e = c.entries@[j];
        let here = child(path, e.name@);
        lemma_in_sum(added_upto(p, c, path, j as nat), adds(p, c, path, j), x);
        if added_upto(p, c, path, j as nat).contains(x) {
            lemma_added_within(p, c, path, j as nat, x);
        } else {
            match (e.inode, lookup(p, e.name@)) {
                (Inode::Directory(cd), Some(Inode::Directory(pd))) => {
                    lemma_added_within(pd, cd, here, cd.entries@.len(), x);
                },
                (Inode::Directory(cd), None) => {
                    lemma_in_sum(seq![here], files_upto(cd, here, cd.entries@.len()), x);
                    lemma_files_below(cd, here, cd.entries@.len());
                },
                _ => {},
            }
            lemma_down(path, e.name@, x);
        }
    }
}

proof fn lemma_modified_within(p: Directory, c: Directory, path: Seq<u8>, n: nat, x: Seq<u8>)
    requires
        n <= c.entries@.len(),
        modified_upto(p, c, path, n).contains(x),
        path.len() > 0,
    ensures
        path.push(47).is_prefix_of(x),
    decreases c, n,
{
    if n > 0 {
        let j = n - 1;
        let e = c.entries@[j];
        let here = child(path, e.name@);
        lemma_in_sum(modified_upto(p, c, path, j as nat), changes(p, c, path, j), x);
        if modified_upto(p, c, path, j as nat).contains(x) {
            lemma_modified_within(p, c, path, j as nat, x);
        } else {
            match (e.inode, lookup(p, e.name@)) {
                (Inode::Directory(cd), Some(Inode::Directory(pd))) => {
                    lemma_modified_within(pd, cd, here, cd.entries@.len(), x);
                },
                _ => {},
            }
            lemma_down(path, e.name@, x);
        }
    }
}

proof fn lemma_removed_within(p: Directory, c: Directory, path: Seq<u8>, n: nat, x: Seq<u8>)
    requires
        n <= p.entries@.len(),
        removed_upto(p, c, path, n).contains(x),
        path.len() > 0,
    ensures
        path.push(47).is_prefix_of(x),
    decreases p, n,
{
    if n > 0 {
        let j = n - 1;
        let e = p.entries@[j];
        let here = child(path, e.name@);
        lemma_in_sum(removed_upto(p, c, path, j as nat), lacks(p, c, path, j), x);
        if removed_upto(p, c, path, j as nat).contains(x) {
            lemma_removed_within(p, c, path, j as nat, x);
        } else {
            match (e.inode, lookup(c, e.name@)) {
                (Inode::Directory(pd), Some(Inode::Directory(cd))) => {
                    lemma_removed_within(pd, cd, here, pd.entries@.len(), x);
                },
                _ => {},
            }
            lemma_down(path, e.name@, x);
        }
    }
}

/// Whether a directory is in order and has names only that can stand in a path.
pub open spec fn proper(d: Directory) -> bool {
    d.wf() && forall|i: int|
        0 <= i < d.entries@.len() ==> (#[trigger] d.entries@[i]).name@.len() > 0
            && !d.entries@[i].name@.contains(47)
}

proof fn lemma_added_only(p: Directory, c: Directory, path: Seq<u8>, name: Seq<u8>, n: nat)
    requires
        proper(c),
        n <= c.entries@.len(),
        !name.contains(47),
        added_upto(p, c, path, n).contains(child(path, name)),
    ensures
        exists|j: int|
            0 <= j < n && (#[trigger] c.entries@[j]).name@ == name && adds(p, c, path, j).contains(
                child(path, name),
            ),
    decreases n,
{
    let x = child(path, name);
    if n > 0 {
        let j = n - 1;
        let e = c.entries@[j];
        let here = child(path, e.name@);
        lemma_in_sum(added_upto(p, c, path, j as nat), adds(p, c, path, j), x);
        if added_upto(p, c, path, j as nat).contains(x) {
            lemma_added_only(p, c, path, name, j as nat);
        } else {
            assert(here.len() > 0);
            match (e.inode, lookup(p, e.name@)) {
                (Inode::Directory(cd), Some(Inode::Directory(pd))) => {
                    lemma_added_within(pd, cd, here, cd.entries@.len(), x);
                },
                (Inode::Directory(cd), None) => {
                    lemma_in_sum(seq![here], files_upto(cd, here, cd.entries@.len()), x);
                    lemma_files_below(cd, here, cd.entries@.len());
                },
                _ => {},
            }
            assert(at_or_below(x, here));
            if e.name@ != name {
                lemma_apart(path, e.name@, name);
            }
        }
    }
}

proof fn lemma_modified_only(p: Directory, c: Directory, path: Seq<u8>, name: Seq<u8>, n: nat)
    requires
        proper(c),
        n <= c.entries@.len(),
        !name.contains(47),
        modified_upto(p, c, path, n).contains(child(path, name)),
    ensures
        exists|j: int|
            0 <= j < n && (#[trigger] c.entries@[j]).name@ == name && changes(
                p,
                c,
                path,
                j,
            ).contains(child(path, name)),
    decreases n,
{
    let x = child(path, name);
    if n > 0 {
        let j = n - 1;
        let e = c.entries@[j];
        let here = child(path, e.name@);
        lemma_in_sum(modified_upto(p, c, path, j as nat), changes(p, c, path, j), x);
        if modified_upto(p, c, path, j as nat).contains(x) {
            lemma_modified_only(p, c, path, name, j as nat);
        } else {
            assert(here.len() > 0);
            match (e.inode, lookup(p, e.name@)) {
                (Inode::Directory(cd), Some(Inode::Directory(pd))) => {
                    lemma_modified_within(pd, cd, here, cd.entries@.len(), x);
                },
                _ => {},
            }
            assert(at_or_below(x, here));
            if e.name@ != name {
                lemma_apart(path, e.name@, name);
            }
        }
    }
}

proof fn lemma_removed_only(p: Directory, c: Directory, path: Seq<u8>, name: Seq<u8>, n: nat)
    requires
        proper(p),
        n <= p.entries@.len(),
        !name.contains(47),
        removed_upto(p, c, path, n).contains(child(path, name)),
    ensures
        exists|j: int|
            0 <= j < n && (#[trigger] p.entries@[j]).name@ == name && lacks(p, c, path, j).contains(
                child(path, name),
            ),
    decreases n,
{
    let x = child(path, name);
    if n > 0 {
        let j = n - 1;
        let e = p.entries@[j];
        let here = child(path, e.name@);
        lemma_in_sum(removed_upto(p, c, path, j as nat), lacks(p, c, path, j), x);
        if removed_upto(p, c, path, j as nat).contains(x) {
            lemma_removed_only(p, c, path, name, j as nat);
        } else {
            assert(here.len() > 0);
            match (e.inode, lookup(c, e.name@)) {
                (Inode::Directory(pd), Some(Inode::Directory(cd))) => {
                    lemma_removed_within(pd, cd, here, pd.entries@.len(), x);
                },
                _ => {},
            }
            assert(at_or_below(x, here));
            if e.name@ != name {
                lemma_apart(path, e.name@, name);
            }
        }
    }
}

/// A path strictly below another is not that other.
proof fn lemma_not_itself(here: Seq<u8>)
    ensures
        !here.push(47).is_prefix_of(here),
{
}

/// A name in a directory is told as added exactly if the pristine directory has no entry of that
/// name, and as removed exactly if the current one has none.
pub proof fn law_come_and_gone(p: Directory, c: Directory, path: Seq<u8>, name: Seq<u8>)
    requires
        proper(p),
        proper(c),
        name.len() > 0,
        !name.contains(47),
    ensures
        added_upto(p, c, path, c.entries@.len()).contains(child(path, name)) <==> (exists|i: int|
            0 <= i < c.entries@.len() && (#[trigger] c.entries@[i]).name@ == name) && (forall|k: int|
            0 <= k < p.entries@.len() ==> (#[trigger] p.entries@[k]).name@ != name),
        removed_upto(p, c, path, p.entries@.len()).contains(child(path, name)) <==> (exists|k: int|
            0 <= k < p.entries@.len() && (#[trigger] p.entries@[k]).name@ == name) && (forall|i: int|
            0 <= i < c.entries@.len() ==> (#[trigger] c.entries@[i]).name@ != name),
{
    let here = child(path, name);
    law_lookup(p, name, 0);
    law_lookup(c, name, 0);
    lemma_not_itself(here);
    if added_upto(p, c, path, c.entries@.len()).contains(here) {
        lemma_added_only(p, c, path, name, c.entries@.len());
        let j = choose|j: int|
            0 <= j < c.entries@.len() && (#[trigger] c.entries@[j]).name@ == name && adds(
                p,
                c,
                path,
                j,
            ).contains(here);
        match (c.entries@[j].inode, lookup(p, name)) {
            (Inode::Directory(cd), Some(Inode::Directory(pd))) => {
                lemma_added_within(pd, cd, here, cd.entries@.len(), here);
            },
            _ => {},
        }
    }
    if removed_upto(p, c, path, p.entries@.len()).contains(here) {
        lemma_removed_only(p, c, path, name, p.entries@.len());
        let j = choose|j: int|
            0 <= j < p.entries@.len() && (#[trigger] p.entries@[j]).name@ == name && lacks(
                p,
                c,
                path,
                j,
            ).contains(here);
        match (p.entries@[j].inode, lookup(c, name)) {
            (Inode::Directory(pd), Some(Inode::Directory(cd))) => {
                lemma_removed_within(pd, cd, here, pd.entries@.len(), here);
            },
            _ => {},
        }
    }
    if exists|i: int| 0 <= i < c.entries@.len() && (#[trigger] c.entries@[i]).name@ == name {
        let i = choose|i: int|
            0 <= i < c.entries@.len() && (#[trigger] c.entries@[i]).name@ == name;
        law_reported(p, c, path, i);
    }
    if exists|k: int| 0 <= k < p.entries@.len() && (#[trigger] p.entries@[k]).name@ == name {
        let k = choose|k: int|
            0 <= k < p.entries@.len() && (#[trigger] p.entries@[k]).name@ == name;
        law_reported(p, c, path, k);
    }
}

/// A file that both directories have is told as modified exactly if anything of it differs: its
/// content, its seal, its owner, its group, its mode, its time of change or any of its extended
/// attributes.
pub proof fn law_changed_file(p: Directory, c: Directory, path: Seq<u8>, k: int, i: int)
    requires
        proper(p),
        proper(c),
        0 <= k < p.entries@.len(),
        0 <= i < c.entries@.len(),
        p.entries@[k].name@ == c.entries@[i].name@,
        p.entries@[k].inode is Leaf,
        c.entries@[i].inode is Leaf,
        distinct_xattrs(p.entries@[k].inode->Leaf_0.stat.xattrs@),
        distinct_xattrs(c.entries@[i].inode->Leaf_0.stat.xattrs@),
    ensures
        ({
            let old = p.entries@[k].inode->Leaf_0;
            let new = c.entries@[i].inode->Leaf_0;
            modified_upto(p, c, path, c.entries@.len()).contains(child(path, c.entries@[i].name@))
                <==> {
                ||| old.content.content_hash@ != new.content.content_hash@
                ||| old.content.verity is Some != new.content.verity is Some
                ||| (old.content.verity matches Some(a) && new.content.verity matches Some(b) && a@
                    != b@)
                ||| old.stat.st_uid != new.stat.st_uid
                ||| old.stat.st_gid != new.stat.st_gid
                ||| old.stat.st_mode != new.stat.st_mode
                ||| old.stat.st_mtim_sec != new.stat.st_mtim_sec
                ||| !says_same(old.stat.xattrs@, new.stat.xattrs@)
            }
        }),
{
    let name = c.entries@[i].name@;
    let here = child(path, name);
    let old = p.entries@[k].inode->Leaf_0;
    let new = c.entries@[i].inode->Leaf_0;
    law_lookup(p, name, k);
    lemma_xattr_same(old.stat.xattrs@, new.stat.xattrs@);
    law_reported(p, c, path, i);
    if modified_upto(p, c, path, c.entries@.len()).contains(here) {
        lemma_modified_only(p, c, path, name, c.entries@.len());
        let j = choose|j: int|
            0 <= j < c.entries@.len() && (#[trigger] c.entries@[j]).name@ == name && changes(
                p,
                c,
                path,
                j,
            ).contains(here);
        law_lookup(c, name, i);
        law_lookup(c, name, j);
        assert(leaf_changed(old, new));
    }
}

/// A directory that both have is itself neither added nor modified nor removed, whatever changed in
/// it. What turned from a file into a directory, or the other way round, is modified.
pub proof fn law_kept_directory(p: Directory, c: Directory, path: Seq<u8>, k: int, i: int)
    requires
        proper(p),
        proper(c),
        0 <= k < p.entries@.len(),
        0 <= i < c.entries@.len(),
        p.entries@[k].name@ == c.entries@[i].name@,
        p.entries@[k].inode is Directory || c.entries@[i].inode is Directory,
    ensures
        modified_upto(p, c, path, c.entries@.len()).contains(child(path, c.entries@[i].name@)) <==>
            p.entries@[k].inode is Leaf || c.entries@[i].inode is Leaf,
{
    let name = c.entries@[i].name@;
    let here = child(path, name);
    law_lookup(p, name, k);
    law_reported(p, c, path, i);
    lemma_not_itself(here);
    if modified_upto(p, c, path, c.entries@.len()).contains(here) {
        lemma_modified_only(p, c, path, name, c.entries@.len());
        let j = choose|j: int|
            0 <= j < c.entries@.len() && (#[trigger] c.entries@[j]).name@ == name && changes(
                p,
                c,
                path,
                j,
            ).contains(here);
        law_lookup(c, name, i);
        law_lookup(c, name, j);
        match (c.entries@[j].inode, p.entries@[k].inode) {
            (Inode::Directory(cd), Inode::Directory(pd)) => {
                lemma_modified_within(pd, cd, here, cd.entries@.len(), here);
            },
            _ => {},
        }
    }
}

/// The files of a directory are all its files and all files of the directories in it, by their paths:
/// each entry adds its own behind those of the entries before it.
pub proof fn law_files(d: Directory, path: Seq<u8>, n: nat)
    requires
        n < d.entries@.len(),
    ensures
        d.entries@[n as int].inode is Leaf ==> files_upto(d, path, n + 1) == files_upto(
            d,
            path,
            n,
        ).push(child(path, d.entries@[n as int].name@)),
        d.entries@[n as int].inode matches Inode::Directory(sub) ==> files_upto(d, path, n + 1)
            == files_upto(d, path, n) + files_upto(
            sub,
            child(path, d.entries@[n as int].name@),
            sub.entries@.len(),
        ),
        files_upto(d, path, 0).len() == 0,
        all_files(d) == files_upto(d, Seq::empty(), d.entries@.len()),
{
    assert(files_upto(d, path, n) + seq![child(path, d.entries@[n as int].name@)] =~= files_upto(
        d,
        path,
        n,
    ).push(child(path, d.entries@[n as int].name@)));
}

/// The path of something in a directory is that of the directory, a slash and its name; at the top it
/// is the name.
pub proof fn law_child(path: Seq<u8>, name: Seq<u8>)
    ensures
        child(Seq::empty(), name) == name,
        path.len() > 0 ==> child(path, name) == path + seq![47u8] + name,
{
    assert(path.push(47) + name =~= path + seq![47u8] + name);
}

/// The order of names goes by the first byte in which they differ; a name comes before one that goes
/// on where it ends.
pub proof fn law_bytes_before(p: Seq<u8>, x: u8, a: Seq<u8>, y: u8, b: Seq<u8>)
    ensures
        x < y ==> bytes_before(p + seq![x] + a, p + seq![y] + b),
        bytes_before(p, p + seq![x] + a),
        !bytes_before(p, p),
    decreases p.len(),
{
    let s = p + seq![x] + a;
    let t = p + seq![y] + b;
    if p.len() > 0 {
        law_bytes_before(p.drop_first(), x, a, y, b);
        assert(s.drop_first() =~= p.drop_first() + seq![x] + a);
        assert(t.drop_first() =~= p.drop_first() + seq![y] + b);
    } else {
        assert(s[0] == x && t[0] == y);
    }
}

proof fn lemma_apart_below(path: Seq<u8>, a: Seq<u8>, b: Seq<u8>, x: Seq<u8>)
    requires
        a != b,
        !a.contains(47),
        !b.contains(47),
        child(path, b).push(47).is_prefix_of(x),
    ensures
        !at_or_below(x, child(path, a)),
{
    let n: int = if path.len() == 0 {
        0
    } else {
        path.len() as int + 1
    };
    let here = child(path, a);
    let there = child(path, b);
    assert(here.skip(n) =~= a && there.skip(n) =~= b);
    assert(here.len() == n + a.len() && there.len() == n + b.len());
    assert forall|m: int| 0 <= m < there.len() + 1 implies x[m] == there.push(47)[m] by {
        assert(there.push(47)[m] == x.subrange(0, there.len() as int + 1)[m]);
    }
    if at_or_below(x, here) {
        assert forall|m: int| 0 <= m < here.len() implies x[m] == here[m] by {
            if x != here {
                assert(here.push(47)[m] == x.subrange(0, here.len() as int + 1)[m]);
            }
        }
        let k: int = if a.len() <= b.len() {
            a.len() as int
        } else {
            b.len() as int
        };
        assert forall|m: int| 0 <= m < k implies a[m] == b[m] by {
            assert(a[m] == here[n + m] && b[m] == there[n + m]);
            assert(x[n + m] == here[n + m] && x[n + m] == there.push(47)[n + m]);
        }
        if a.len() < b.len() {
            assert(x != here);
            assert(here.push(47)[here.len() as int] == x.subrange(
                0,
                here.len() as int + 1,
            )[here.len() as int]);
            assert(x[n + k] == there.push(47)[n + k]);
            assert(b[k] == there[n + k]);
            assert(b.contains(b[k]));
        } else if a.len() > b.len() {
            assert(x[n + k] == there.push(47)[n + k]);
            assert(a[k] == here[n + k]);
            assert(a.contains(a[k]));
        } else {
            assert(a =~= b);
        }
    }
}

proof fn lemma_added_only_below(
    p: Directory,
    c: Directory,
    path: Seq<u8>,
    name: Seq<u8>,
    n: nat,
    x: Seq<u8>,
)
    requires
        proper(c),
        n <= c.entries@.len(),
        !name.contains(47),
        child(path, name).push(47).is_prefix_of(x),
        added_upto(p, c, path, n).contains(x),
    ensures
        exists|j: int|
            0 <= j < n && (#[trigger] c.entries@[j]).name@ == name && adds(p, c, path, j).contains(x),
    decreases n,
{
    if n > 0 {
        let j = n - 1;
        let e = c.entries@[j];
        let here = child(path, e.name@);
        lemma_in_sum(added_upto(p, c, path, j as nat), adds(p, c, path, j), x);
        if added_upto(p, c, path, j as nat).contains(x) {
            lemma_added_only_below(p, c, path, name, j as nat, x);
        } else {
            assert(here.len() > 0);
            match (e.inode, lookup(p, e.name@)) {
                (Inode::Directory(cd), Some(Inode::Directory(pd))) => {
                    lemma_added_within(pd, cd, here, cd.entries@.len(), x);
                },
                (Inode::Directory(cd), None) => {
                    lemma_in_sum(seq![here], files_upto(cd, here, cd.entries@.len()), x);
                    lemma_files_below(cd, here, cd.entries@.len());
                },
                _ => {},
            }
            assert(at_or_below(x, here));
            if e.name@ != name {
                lemma_apart_below(path, e.name@, name, x);
            }
        }
    }
}

proof fn lemma_modified_only_below(
    p: Directory,
    c: Directory,
    path: Seq<u8>,
    name: Seq<u8>,
    n: nat,
    x: Seq<u8>,
)
    requires
        proper(c),
        n <= c.entries@.len(),
        !name.contains(47),
        child(path, name).push(47).is_prefix_of(x),
        modified_upto(p, c, path, n).contains(x),
    ensures
        exists|j: int|
            0 <= j < n && (#[trigger] c.entries@[j]).name@ == name && changes(p, c, path, j).contains(x),
    decreases n,
{
    if n > 0 {
        let j = n - 1;
        let e = c.entries@[j];
        let here = child(path, e.name@);
        lemma_in_sum(modified_upto(p, c, path, j as nat), changes(p, c, path, j), x);
        if modified_upto(p, c, path, j as nat).contains(x) {
            lemma_modified_only_below(p, c, path, name, j as nat, x);
        } else {
            assert(here.len() > 0);
            match (e.inode, lookup(p, e.name@)) {
                (Inode::Directory(cd), Some(Inode::Directory(pd))) => {
                    lemma_modified_within(pd, cd, here, cd.entries@.len(), x);
                },
                _ => {},
            }
            assert(at_or_below(x, here));
            if e.name@ != name {
                lemma_apart_below(path, e.name@, name, x);
            }
        }
    }
}

proof fn lemma_removed_only_below(
    p: Directory,
    c: Directory,
    path: Seq<u8>,
    name: Seq<u8>,
    n: nat,
    x: Seq<u8>,
)
    requires
        proper(p),
        n <= p.entries@.len(),
        !name.contains(47),
        child(path, name).push(47).is_prefix_of(x),
        removed_upto(p, c, path, n).contains(x),
    ensures
        exists|j: int|
            0 <= j < n && (#[trigger] p.entries@[j]).name@ == name && lacks(p, c, path, j).contains(x),
    decreases n,
{
    if n > 0 {
        let j = n - 1;
        let e = p.entries@[j];
        let here = child(path, e.name@);
        lemma_in_sum(removed_upto(p, c, path, j as nat), lacks(p, c, path, j), x);
        if removed_upto(p, c, path, j as nat).contains(x) {
            lemma_removed_only_below(p, c, path, name, j as nat, x);
        } else {
            assert(here.len() > 0);
            match (e.inode, lookup(c, e.name@)) {
                (Inode::Directory(pd), Some(Inode::Directory(cd))) => {
                    lemma_removed_within(pd, cd, here, pd.entries@.len(), x);
                },
                _ => {},
            }
            assert(at_or_below(x, here));
            if e.name@ != name {
                lemma_apart_below(path, e.name@, name, x);
            }
        }
    }
}

/// Whatever lies below a directory that both have is told exactly as it is told of that directory
/// alone.
pub proof fn law_told_below(
    p: Directory,
    c: Directory,
    path: Seq<u8>,
    k: int,
    i: int,
    pd: Directory,
    cd: Directory,
    x: Seq<u8>,
)
    requires
        proper(p),
        proper(c),
        0 <= k < p.entries@.len(),
        0 <= i < c.entries@.len(),
        p.entries@[k].name@ == c.entries@[i].name@,
        p.entries@[k].inode == Inode::Directory(pd),
        c.entries@[i].inode == Inode::Directory(cd),
        child(path, c.entries@[i].name@).push(47).is_prefix_of(x),
    ensures
        ({
            let here = child(path, c.entries@[i].name@);
            &&& added_upto(p, c, path, c.entries@.len()).contains(x) <==> added_upto(
                pd,
                cd,
                here,
                cd.entries@.len(),
            ).contains(x)
            &&& modified_upto(p, c, path, c.entries@.len()).contains(x) <==> modified_upto(
                pd,
                cd,
                here,
                cd.entries@.len(),
            ).contains(x)
            &&& removed_upto(p, c, path, p.entries@.len()).contains(x) <==> removed_upto(
                pd,
                cd,
                here,
                pd.entries@.len(),
            ).contains(x)
        }),
{
    let name = c.entries@[i].name@;
    law_lookup(p, name, k);
    law_lookup(c, name, i);
    if added_upto(p, c, path, c.entries@.len()).contains(x) {
        lemma_added_only_below(p, c, path, name, c.entries@.len(), x);
        let j = choose|j: int|
            0 <= j < c.entries@.len() && (#[trigger] c.entries@[j]).name@ == name && adds(
                p,
                c,
                path,
                j,
            ).contains(x);
        law_lookup(c, name, i);
        law_lookup(c, name, j);
    }
    if modified_upto(p, c, path, c.entries@.len()).contains(x) {
        lemma_modified_only_below(p, c, path, name, c.entries@.len(), x);
        let j = choose|j: int|
            0 <= j < c.entries@.len() && (#[trigger] c.entries@[j]).name@ == name && changes(
                p,
                c,
                path,
                j,
            ).contains(x);
        law_lookup(c, name, i);
        law_lookup(c, name, j);
    }
    if removed_upto(p, c, path, p.entries@.len()).contains(x) {
        lemma_removed_only_below(p, c, path, name, p.entries@.len(), x);
        let j = choose|j: int|
            0 <= j < p.entries@.len() && (#[trigger] p.entries@[j]).name@ == name && lacks(
                p,
                c,
                path,
                j,
            ).contains(x);
        law_lookup(p, name, k);
        law_lookup(p, name, j);
    }
    law_reported_below(p, c, path, i, k);
}

/// Two directories as a whole differ in what is told of them from the top on, where a path is but the
/// names on it.
pub proof fn law_whole(p: Directory, c: Directory)
    ensures
        added(p, c) == added_upto(p, c, Seq::empty(), c.entries@.len()),
        modified(p, c) == modified_upto(p, c, Seq::empty(), c.entries@.len()),
        removed(p, c) == removed_upto(p, c, Seq::empty(), p.entries@.len()),
{
}

} // verus!
