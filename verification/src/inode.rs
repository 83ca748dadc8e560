use crate::directory::copy_units;
use crate::driver::units_equal;
use vstd::prelude::*;

verus! {

/// The inode of the root directory.
pub const ROOT_INODE: u64 = 1;

/// What the table keeps for one inode: its absolute path, the inode of the
/// directory it was found in, and the name it was found under.
pub struct InodeEntry {
    pub path: Vec<u16>,
    pub parent: u64,
    pub name: Vec<u16>,
}

/// Assigns inodes to paths: inode `i` is entry `i - 1`, so inodes are issued
/// in order, starting at 1 for `/`, and never taken back.
pub struct InodeResolver {
    pub entries: Vec<InodeEntry>,
    pub next_inode: u64,
}

/// The path of `name` in the directory at `parent`.
pub open spec fn join_path(parent: Seq<u16>, name: Seq<u16>) -> Seq<u16> {
    if parent.len() > 0 && parent.last() == 0x2F {
        parent + name
    } else {
        parent + seq![0x2Fu16] + name
    }
}

/// `/`
pub open spec fn root_path() -> Seq<u16> {
    seq![0x2Fu16]
}

/// `.`
pub open spec fn dot() -> Seq<u16> {
    seq![0x2Eu16]
}

/// `..`
pub open spec fn dot_dot() -> Seq<u16> {
    seq![0x2Eu16, 0x2Eu16]
}

/// Builds the path of `name` in the directory at `parent`.
pub fn joined(parent: &Vec<u16>, name: &Vec<u16>) -> (path: Vec<u16>)
    ensures
        path@ == join_path(parent@, name@),
{
    let mut path: Vec<u16> = copy_units(parent);
    let n: usize = path.len();
    if n == 0 || path[n - 1] != 0x2F {
        path.push(0x2F);
    }
    let mut i: usize = 0;
    let ghost prefix = path@;
    while i < name.len()
        invariant
            i <= name.len(),
            path@ == prefix + name@.subrange(0, i as int),
        decreases name.len() - i,
    {
        path.push(name[i]);
        i += 1;
        assert(path@ =~= prefix + name@.subrange(0, i as int));
    }
    proof {
        assert(name@.subrange(0, i as int) =~= name@);
        assert(path@ =~= join_path(parent@, name@));
    }
    path
}

impl InodeResolver {
    /// The inode has been issued.
    pub open spec fn known(&self, inode: u64) -> bool {
        1 <= inode <= self.next_inode
    }

    /// The path of an issued inode.
    pub open spec fn path_of(&self, inode: u64) -> Seq<u16> {
        self.entries@[inode - 1].path@
    }

    /// The parent of an issued inode; the root is its own parent.
    pub open spec fn parent_of(&self, inode: u64) -> u64 {
        self.entries@[inode - 1].parent
    }

    /// Some issued inode has this path.
    pub open spec fn knows_path(&self, path: Seq<u16>) -> bool {
        exists|i: u64| self.known(i) && self.path_of(i) == path
    }

    /// The issued inode that has this path.
    pub open spec fn inode_of(&self, path: Seq<u16>) -> u64 {
        choose|i: u64| self.known(i) && self.path_of(i) == path
    }

    /// Inode 1 is `/`; paths and inodes correspond one to one; every other
    /// inode was issued after its parent and has the path of its name in
    /// its parent.
    pub open spec fn wf(&self) -> bool {
        &&& self.entries@.len() == self.next_inode
        &&& self.next_inode >= 1
        &&& self.path_of(ROOT_INODE) == root_path()
        &&& self.parent_of(ROOT_INODE) == ROOT_INODE
        &&& forall|i: u64, j: u64|
            self.known(i) && self.known(j) && i != j ==> self.path_of(i) != self.path_of(j)
        &&& forall|i: u64|
            2 <= i <= self.next_inode ==> 1 <= #[trigger] self.parent_of(i) < i && self.path_of(i)
                == join_path(self.path_of(self.parent_of(i)), self.entries@[i - 1].name@)
    }

    /// Every inode of this table is an inode of `later`, with the same path
    /// and parent: what any number of assignments leaves in place.
    pub open spec fn extended_by(&self, later: &InodeResolver) -> bool {
        &&& self.next_inode <= later.next_inode
        &&& forall|i: u64|
            self.known(i) ==> later.path_of(i) == self.path_of(i) && later.parent_of(i)
                == self.parent_of(i)
    }

    /// What `get_or_assign_inode(parent, name)` answers on this table and
    /// leaves behind: `.` is the directory itself and `..` its parent; any
    /// other name has the inode of its path, a new one where the path had
    /// none.
    pub open spec fn assigned(
        &self,
        after: &InodeResolver,
        parent: u64,
        name: Seq<u16>,
        inode: u64,
    ) -> bool {
        &&& self.extended_by(after)
        &&& if name == dot() {
            inode == parent && after.next_inode == self.next_inode
        } else if name == dot_dot() {
            inode == self.parent_of(parent) && after.next_inode == self.next_inode
        } else {
            let path = join_path(self.path_of(parent), name);
            &&& after.known(inode)
            &&& after.path_of(inode) == path
            &&& if self.knows_path(path) {
                inode == self.inode_of(path) && after.next_inode == self.next_inode
            } else {
                inode == self.next_inode + 1 && after.next_inode == inode && after.parent_of(inode)
                    == parent
            }
        }
    }

    /// Looking up the path of an issued inode gives that inode back.
    pub proof fn lemma_path_is_inverse(&self, inode: u64)
        requires
            self.wf(),
            self.known(inode),
        ensures
            self.knows_path(self.path_of(inode)),
            self.inode_of(self.path_of(inode)) == inode,
    {
    }

    /// Asking again for the same name in the same directory gives the same
    /// inode, whatever was assigned in between, and the inode's path is the
    /// path of that name.
    pub proof fn lemma_inode_stable(
        &self,
        first: &InodeResolver,
        later: &InodeResolver,
        last: &InodeResolver,
        parent: u64,
        name: Seq<u16>,
        inode1: u64,
        inode2: u64,
    )
        requires
            self.wf(),
            first.wf(),
            later.wf(),
            self.known(parent),
            name != dot(),
            name != dot_dot(),
            self.assigned(first, parent, name, inode1),
            first.extended_by(later),
            later.assigned(last, parent, name, inode2),
        ensures
            inode1 == inode2,
            last.path_of(inode2) == join_path(self.path_of(parent), name),
    {
        let path = join_path(self.path_of(parent), name);
        assert(first.known(inode1) && first.path_of(inode1) == path);
        assert(later.known(inode1) && later.path_of(inode1) == path);
        assert(later.path_of(parent) == self.path_of(parent));
        assert(later.knows_path(path));
    }

    /// A table that knows the root alone.
    pub fn new() -> (r: InodeResolver)
        ensures
            r.wf(),
            r.next_inode == ROOT_INODE,
            r.path_of(ROOT_INODE) == root_path(),
    {
        let mut path: Vec<u16> = Vec::new();
        path.push(0x2F);
        let mut name: Vec<u16> = Vec::new();
        name.push(0x2F);
        let mut entries: Vec<InodeEntry> = Vec::new();
        entries.push(InodeEntry { path, parent: ROOT_INODE, name });
        let r = InodeResolver { entries, next_inode: ROOT_INODE };
        assert(r.path_of(ROOT_INODE) =~= root_path());
        r
    }

    /// Whether the inode has been issued.
    pub fn is_known(&self, inode: u64) -> (r: bool)
        ensures
            r == self.known(inode),
    {
        1 <= inode && inode <= self.next_inode
    }

    /// Where the entry of an issued inode lies.
    fn slot(&self, inode: u64) -> (r: usize)
        requires
            self.wf(),
            self.known(inode),
        ensures
            r == inode - 1,
            r < self.entries@.len(),
    {
        let n: usize = self.entries.len();
        (inode - 1) as usize
    }

    /// The path of an inode that this table issued.
    pub fn path(&self, inode: u64) -> (r: &Vec<u16>)
        requires
            self.wf(),
            self.known(inode),
        ensures
            r@ == self.path_of(inode),
    {
        &self.entries[self.slot(inode)].path
    }

    /// The inode of a path, where it has one.
    pub fn find_path(&self, path: &Vec<u16>) -> (r: Option<u64>)
        requires
            self.wf(),
        ensures
            match r {
                Some(i) => self.known(i) && self.path_of(i) == path@ && i == self.inode_of(path@),
                None => !self.knows_path(path@),
            },
    {
        let mut k: usize = 0;
        while k < self.entries.len()
            invariant
                self.wf(),
                k <= self.entries.len(),
                forall|i: u64| 1 <= i <= k ==> self.path_of(i) != path@,
            decreases self.entries.len() - k,
        {
            if units_equal(&self.entries[k].path, path) {
                let found: u64 = k as u64 + 1;
                assert(self.known(found) && self.path_of(found) == path@);
                return Some(found);
            }
            k += 1;
        }
        None
    }

    fn register_path_inode(&mut self, path: Vec<u16>, parent: u64, name: Vec<u16>)
        requires
            old(self).next_inode < u64::MAX,
            old(self).entries@.len() == old(self).next_inode,
        ensures
            final(self).next_inode == old(self).next_inode + 1,
            final(self).entries@ == old(self).entries@.push(
                (InodeEntry { path, parent, name }),
            ),
    {
        self.entries.push(InodeEntry { path, parent, name });
        self.next_inode += 1;
    }

    /// The inode of `name` in the directory `parent`, assigned now where
    /// the path had none.
    pub fn get_or_assign_inode(&mut self, parent: u64, name: &Vec<u16>) -> (r: u64)
        requires
            old(self).wf(),
            old(self).known(parent),
            old(self).next_inode < u64::MAX,
        ensures
            final(self).wf(),
            old(self).assigned(final(self), parent, name@, r),
    {
        if name.len() == 1 && name[0] == 0x2E {
            assert(name@ =~= dot());
            return parent;
        }
        if name.len() == 2 && name[0] == 0x2E && name[1] == 0x2E {
            assert(name@ =~= dot_dot());
            assert(name@ != dot()) by {
                assert(name@.len() != dot().len());
            }
            return self.entries[self.slot(parent)].parent;
        }
        assert(name@ != dot()) by {
            if name@ == dot() {
                assert(dot().len() == 1 && dot()[0] == 0x2E);
            }
        }
        assert(name@ != dot_dot()) by {
            if name@ == dot_dot() {
                assert(dot_dot().len() == 2 && dot_dot()[0] == 0x2E && dot_dot()[1] == 0x2E);
            }
        }
        let current_path: Vec<u16> = joined(&self.entries[self.slot(parent)].path, name);
        if let Some(existing_inode) = self.find_path(&current_path) {
            return existing_inode;
        }
        let ghost path = current_path@;
        let inode: u64 = self.next_inode + 1;
        self.register_path_inode(current_path, parent, copy_units(name));
        proof {
            assert forall|k: u64| old(self).known(k) implies self.path_of(k) == old(self).path_of(k)
                && self.parent_of(k) == old(self).parent_of(k) by {}
            assert(self.path_of(inode) == path);
            assert forall|a: u64, b: u64|
                self.known(a) && self.known(b) && a != b implies self.path_of(a) != self.path_of(
                b,
            ) by {
                if a == inode {
                    assert(old(self).known(b));
                } else if b == inode {
                    assert(old(self).known(a));
                } else {
                    assert(old(self).known(a) && old(self).known(b));
                }
            }
            assert forall|k: u64| 2 <= k <= self.next_inode implies 1 <= #[trigger] self.parent_of(
                k,
            ) < k && self.path_of(k) == join_path(
                self.path_of(self.parent_of(k)),
                self.entries@[k - 1].name@,
            ) by {
                if k != inode {
                    assert(old(self).known(k));
                    assert(old(self).known(old(self).parent_of(k)));
                }
            }
        }
        inode
    }
}

} // verus!
