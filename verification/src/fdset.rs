//! Descriptor sets of `select` and descriptor lists of `poll`, and their
//! translation between the guest's descriptors and the kernel's.

use crate::abi::FD_SETSIZE;
use crate::fdtable::{FdTable, FdTableView};
use vstd::prelude::*;

verus! {

/// A set of descriptors below 1024.
#[derive(Debug)]
pub struct FdSet {
    bits: Vec<bool>,
}

impl View for FdSet {
    type V = Set<i32>;

    closed spec fn view(&self) -> Set<i32> {
        Set::new(|fd: i32| 0 <= fd < self.bits@.len() && self.bits@[fd as int])
    }
}

impl Clone for FdSet {
    fn clone(&self) -> (r: Self)
        ensures
            r@ == self@,
            self.wf() ==> r.wf(),
    {
        let mut bits: Vec<bool> = Vec::new();
        let mut i: usize = 0;
        while i < self.bits.len()
            invariant
                i <= self.bits@.len(),
                bits@ == self.bits@.take(i as int),
            decreases self.bits.len() - i,
        {
            bits.push(self.bits[i]);
            i += 1;
        }
        assert(self.bits@.take(self.bits@.len() as int) =~= self.bits@);
        FdSet { bits }
    }
}

impl FdSet {
    /// The set has room for exactly the descriptors below 1024.
    pub closed spec fn wf(&self) -> bool {
        self.bits@.len() == FD_SETSIZE
    }

    /// A well-formed set holds only descriptors from 0 up to 1023.
    pub proof fn lemma_range(&self)
        requires
            self.wf(),
        ensures
            forall|fd: i32| self@.contains(fd) ==> 0 <= fd < FD_SETSIZE,
    {
    }

    /// The empty set.
    pub fn new() -> (r: Self)
        ensures
            r.wf(),
            r@ == Set::<i32>::empty(),
    {
        let mut bits: Vec<bool> = Vec::new();
        let mut i: usize = 0;
        while i < FD_SETSIZE
            invariant
                i <= FD_SETSIZE,
                bits@.len() == i,
                forall|j: int| 0 <= j < i ==> !bits@[j],
            decreases FD_SETSIZE - i,
        {
            bits.push(false);
            i += 1;
        }
        let r = FdSet { bits };
        assert(r@ =~= Set::<i32>::empty());
        r
    }

    /// Whether `fd` is in the set.
    pub fn is_set(&self, fd: i32) -> (r: bool)
        requires
            self.wf(),
            0 <= fd < FD_SETSIZE,
        ensures
            r == self@.contains(fd),
    {
        self.bits[fd as usize]
    }

    /// Puts `fd` into the set.
    pub fn set(&mut self, fd: i32)
        requires
            old(self).wf(),
            0 <= fd < FD_SETSIZE,
        ensures
            final(self).wf(),
            final(self)@ == old(self)@.insert(fd),
    {
        self.bits.set(fd as usize, true);
        assert(final(self)@ =~= old(self)@.insert(fd));
    }

    /// Empties the set.
    pub fn zero(&mut self)
        requires
            old(self).wf(),
        ensures
            final(self).wf(),
            final(self)@ == Set::<i32>::empty(),
    {
        let mut i: usize = 0;
        while i < FD_SETSIZE
            invariant
                i <= FD_SETSIZE,
                self.bits@.len() == FD_SETSIZE,
                forall|j: int| 0 <= j < i ==> !self.bits@[j],
            decreases FD_SETSIZE - i,
        {
            self.bits.set(i, false);
            i += 1;
        }
        assert(final(self)@ =~= Set::<i32>::empty());
    }
}

/// The kernel descriptors behind the guest's descriptors below `nfds` that
/// are in `virt`. Descriptors that stand for nothing, or for a file served
/// in-process, have none.
pub open spec fn kernel_set(table: FdTableView, virt: Set<i32>, nfds: int) -> Set<i32> {
    Set::new(
        |k: i32|
            exists|vfd: i32|
                0 <= vfd < nfds && virt.contains(vfd) && #[trigger] table.translate(vfd) == Some(k),
    )
}

/// Every kernel descriptor behind a guest descriptor below `nfds` in `virt`
/// fits into a descriptor set.
pub open spec fn kernel_fds_fit(table: FdTableView, virt: Set<i32>, nfds: int) -> bool {
    forall|vfd: i32|
        0 <= vfd < nfds && virt.contains(vfd) ==> (#[trigger] table.translate(vfd) matches Some(
            k,
        ) ==> 0 <= k < FD_SETSIZE)
}

/// The count to hand to the kernel with the set `kernel`: one more than its
/// largest descriptor, and 1 for the empty set.
pub open spec fn is_kernel_nfds(kernel: Set<i32>, n: int) -> bool {
    &&& n >= 1
    &&& forall|k: i32| kernel.contains(k) ==> k < n
    &&& n == 1 || kernel.contains((n - 1) as i32)
}

/// The guest's descriptors below `nfds` whose kernel descriptor is below
/// `kernel_nfds` and in `kernel`.
pub open spec fn virtual_set(
    table: FdTableView,
    kernel: Set<i32>,
    kernel_nfds: int,
    nfds: int,
) -> Set<i32> {
    Set::new(
        |vfd: i32|
            0 <= vfd < nfds && (table.translate(vfd) matches Some(k) && k < kernel_nfds
                && kernel.contains(k)),
    )
}

/// Whether every kernel descriptor that `translate_to_kernel` would put
/// into its set fits there.
pub fn check_kernel_fds_fit(virt_set: &FdSet, virt_nfds: i32, fd_table: &FdTable) -> (r: bool)
    requires
        virt_set.wf(),
        fd_table.wf(),
        virt_nfds <= FD_SETSIZE,
    ensures
        r == kernel_fds_fit(fd_table@, virt_set@, virt_nfds as int),
{
    let mut vfd: i32 = 0;
    while vfd < virt_nfds
        invariant
            virt_set.wf(),
            fd_table.wf(),
            virt_nfds <= FD_SETSIZE,
            0 <= vfd,
            vfd <= virt_nfds || (virt_nfds < 0 && vfd == 0),
            kernel_fds_fit(fd_table@, virt_set@, vfd as int),
        decreases virt_nfds - vfd,
    {
        if virt_set.is_set(vfd) {
            match fd_table.translate(vfd) {
                Some(k) => {
                    if k < 0 || k >= 1024 {
                        return false;
                    }
                },
                None => {},
            }
        }
        vfd += 1;
    }
    true
}

/// The set of kernel descriptors to hand to the kernel in place of the
/// guest's set, with the count that goes with it.
pub fn translate_to_kernel(virt_set: &FdSet, virt_nfds: i32, fd_table: &FdTable) -> (r: (
    FdSet,
    i32,
))
    requires
        virt_set.wf(),
        fd_table.wf(),
        virt_nfds <= FD_SETSIZE,
        kernel_fds_fit(fd_table@, virt_set@, virt_nfds as int),
    ensures
        r.0.wf(),
        r.0@ == kernel_set(fd_table@, virt_set@, virt_nfds as int),
        is_kernel_nfds(r.0@, r.1 as int),
{
    let mut kernel = FdSet::new();
    let mut max_kernel_fd: i32 = 0;
    let mut vfd: i32 = 0;
    assert(kernel@ =~= kernel_set(fd_table@, virt_set@, 0));
    while vfd < virt_nfds
        invariant
            virt_set.wf(),
            fd_table.wf(),
            kernel.wf(),
            virt_nfds <= FD_SETSIZE,
            0 <= vfd,
            vfd <= virt_nfds || (virt_nfds < 0 && vfd == 0),
            kernel_fds_fit(fd_table@, virt_set@, virt_nfds as int),
            kernel@ == kernel_set(fd_table@, virt_set@, vfd as int),
            0 <= max_kernel_fd < FD_SETSIZE,
            forall|k: i32| kernel@.contains(k) ==> k <= max_kernel_fd,
            max_kernel_fd == 0 || kernel@.contains(max_kernel_fd),
        decreases virt_nfds - vfd,
    {
        let ghost before = kernel@;
        let mut added: Option<i32> = None;
        if virt_set.is_set(vfd) {
            match fd_table.translate(vfd) {
                Some(kfd) => {
                    kernel.set(kfd);
                    if kfd > max_kernel_fd {
                        max_kernel_fd = kfd;
                    }
                    added = Some(kfd);
                },
                None => {},
            }
        }
        proof {
            let next = kernel_set(fd_table@, virt_set@, vfd + 1);
            assert forall|k: i32| kernel@.contains(k) <==> next.contains(k) by {
                if kernel@.contains(k) {
                    if before.contains(k) {
                        let w = choose|w: i32|
                            0 <= w < vfd && virt_set@.contains(w) && #[trigger] fd_table@.translate(
                                w,
                            ) == Some(k);
                        assert(0 <= w < vfd + 1);
                    } else {
                        assert(fd_table@.translate(vfd) == Some(k));
                    }
                }
                if next.contains(k) {
                    let w = choose|w: i32|
                        0 <= w < vfd + 1 && virt_set@.contains(w) && #[trigger] fd_table@.translate(
                            w,
                        ) == Some(k);
                    if w < vfd {
                        assert(before.contains(k));
                    }
                }
            }
            assert(kernel@ =~= next);
        }
        vfd += 1;
    }
    proof {
        if virt_nfds < 0 {
            assert(kernel@ =~= kernel_set(fd_table@, virt_set@, virt_nfds as int));
        }
    }
    (kernel, max_kernel_fd + 1)
}

/// Every kernel descriptor below `kernel_nfds` behind a guest descriptor
/// below `nfds` is a descriptor that a set can hold.
pub open spec fn kernel_fds_valid(table: FdTableView, kernel_nfds: int, nfds: int) -> bool {
    forall|vfd: i32|
        0 <= vfd < nfds ==> (#[trigger] table.translate(vfd) matches Some(k) ==> k >= kernel_nfds
            || 0 <= k < FD_SETSIZE)
}

/// Whether `translate_to_virtual` can look every kernel descriptor up.
pub fn check_kernel_fds_valid(kernel_nfds: i32, virt_nfds: i32, fd_table: &FdTable) -> (r: bool)
    requires
        fd_table.wf(),
    ensures
        r == kernel_fds_valid(fd_table@, kernel_nfds as int, virt_nfds as int),
{
    let mut vfd: i32 = 0;
    while vfd < virt_nfds
        invariant
            fd_table.wf(),
            0 <= vfd,
            vfd <= virt_nfds || (virt_nfds < 0 && vfd == 0),
            kernel_fds_valid(fd_table@, kernel_nfds as int, vfd as int),
        decreases virt_nfds - vfd,
    {
        match fd_table.translate(vfd) {
            Some(k) => {
                if k < kernel_nfds && (k < 0 || k >= 1024) {
                    return false;
                }
            },
            None => {},
        }
        vfd += 1;
    }
    true
}

/// Writes into `virt_set` the guest's descriptors for the kernel
/// descriptors that the kernel left in `kernel_set`.
pub fn translate_to_virtual(
    kernel_set: &FdSet,
    kernel_nfds: i32,
    virt_set: &mut FdSet,
    virt_nfds: i32,
    fd_table: &FdTable,
)
    requires
        kernel_set.wf(),
        old(virt_set).wf(),
        fd_table.wf(),
        virt_nfds <= FD_SETSIZE,
        kernel_fds_valid(fd_table@, kernel_nfds as int, virt_nfds as int),
    ensures
        final(virt_set).wf(),
        final(virt_set)@ == virtual_set(
            fd_table@,
            kernel_set@,
            kernel_nfds as int,
            virt_nfds as int,
        ),
{
    virt_set.zero();
    let mut vfd: i32 = 0;
    assert(virt_set@ =~= virtual_set(fd_table@, kernel_set@, kernel_nfds as int, 0));
    while vfd < virt_nfds
        invariant
            kernel_set.wf(),
            virt_set.wf(),
            fd_table.wf(),
            virt_nfds <= FD_SETSIZE,
            0 <= vfd,
            vfd <= virt_nfds || (virt_nfds < 0 && vfd == 0),
            kernel_fds_valid(fd_table@, kernel_nfds as int, virt_nfds as int),
            virt_set@ == virtual_set(fd_table@, kernel_set@, kernel_nfds as int, vfd as int),
        decreases virt_nfds - vfd,
    {
        match fd_table.translate(vfd) {
            Some(kfd) => {
                if kfd < kernel_nfds && kernel_set.is_set(kfd) {
                    virt_set.set(vfd);
                }
            },
            None => {},
        }
        assert(virt_set@ =~= virtual_set(fd_table@, kernel_set@, kernel_nfds as int, vfd + 1));
        vfd += 1;
    }
    proof {
        if virt_nfds < 0 {
            assert(virt_set@ =~= virtual_set(
                fd_table@,
                kernel_set@,
                kernel_nfds as int,
                virt_nfds as int,
            ));
        }
    }
}

/// One line of a `poll` list.
#[derive(Debug, Clone, Copy, PartialEq, Eq, Structural)]
pub struct PollFd {
    pub fd: i32,
    pub events: i16,
    pub revents: i16,
}

/// The line to hand to the kernel for the guest's line `p`: its kernel
/// descriptor, or the guest's own where the table has none, the same events,
/// and no results yet.
pub open spec fn kernel_pollfd(table: FdTableView, p: PollFd) -> PollFd {
    PollFd {
        fd: match table.translate(p.fd) {
            Some(k) => k,
            None => p.fd,
        },
        events: p.events,
        revents: 0,
    }
}

/// The list to hand to the kernel in place of the guest's list.
pub fn poll_to_kernel(pollfds: &Vec<PollFd>, fd_table: &FdTable) -> (r: Vec<PollFd>)
    requires
        fd_table.wf(),
    ensures
        r@.len() == pollfds@.len(),
        forall|i: int| 0 <= i < r@.len() ==> r@[i] == kernel_pollfd(fd_table@, pollfds@[i]),
{
    let mut out: Vec<PollFd> = Vec::new();
    let mut i: usize = 0;
    while i < pollfds.len()
        invariant
            fd_table.wf(),
            i <= pollfds@.len(),
            out@.len() == i,
            forall|j: int| 0 <= j < i ==> out@[j] == kernel_pollfd(fd_table@, pollfds@[j]),
        decreases pollfds.len() - i,
    {
        let p = pollfds[i];
        let fd = match fd_table.translate(p.fd) {
            Some(k) => k,
            None => p.fd,
        };
        out.push(PollFd { fd, events: p.events, revents: 0 });
        i += 1;
    }
    out
}

/// The list to write back to the guest: the guest's own lines with the
/// results that the kernel reported.
pub fn poll_to_virtual(pollfds: &Vec<PollFd>, kernel: &Vec<PollFd>) -> (r: Vec<PollFd>)
    requires
        pollfds@.len() == kernel@.len(),
    ensures
        r@.len() == pollfds@.len(),
        forall|i: int|
            0 <= i < r@.len() ==> r@[i] == (PollFd {
                revents: kernel@[i].revents,
                ..pollfds@[i]
            }),
{
    let mut out: Vec<PollFd> = Vec::new();
    let mut i: usize = 0;
    while i < pollfds.len()
        invariant
            pollfds@.len() == kernel@.len(),
            i <= pollfds@.len(),
            out@.len() == i,
            forall|j: int|
                0 <= j < i ==> out@[j] == (PollFd {
                    revents: kernel@[j].revents,
                    ..pollfds@[j]
                }),
        decreases pollfds.len() - i,
    {
        out.push(PollFd { fd: pollfds[i].fd, events: pollfds[i].events, revents: kernel[i].revents });
        i += 1;
    }
    out
}

} // verus!
