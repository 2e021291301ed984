//! The batch system: applications linked into the kernel image run one
//! after another.
use vstd::prelude::*;

verus! {

/// Size of the user stack in bytes.
pub const USER_STACK_SIZE: usize = 4096 * 2;
/// Size of the kernel stack in bytes.
pub const KERNEL_STACK_SIZE: usize = 4096 * 2;
/// Maximal number of applications.
pub const MAX_APP_NUM: usize = 16;
/// The address applications are loaded at.
pub const APP_BASE_ADDRESS: usize = 0x80400000;
/// The largest size of an application image.
pub const APP_SIZE_LIMIT: usize = 0x20000;

/// The applications linked into the kernel and which one runs next:
/// application `i` occupies `[app_start[i], app_start[i + 1])`.
pub struct AppManager {
    num_app: usize,
    current_app: usize,
    app_start: [usize; 17],
}

impl AppManager {
    /// The number of applications.
    pub closed spec fn count(&self) -> int {
        self.num_app as int
    }

    /// The application that runs next.
    pub closed spec fn current(&self) -> int {
        self.current_app as int
    }

    /// The application count and the next application's index are `usize`
    /// values.
    pub proof fn lemma_bounds(&self)
        ensures
            0 <= self.count() <= usize::MAX,
            0 <= self.current() <= usize::MAX,
    {
    }

    /// Where the applications start (and the last one ends).
    pub closed spec fn starts(&self) -> Seq<usize> {
        self.app_start@
    }

    /// A manager of `num_app` applications laid out by `app_start`, the
    /// first of them next.
    pub fn new(num_app: usize, app_start: [usize; 17]) -> (r: Self)
        requires
            num_app <= MAX_APP_NUM,
        ensures
            r.count() == num_app,
            r.current() == 0,
            r.starts() == app_start@,
    {
        AppManager { num_app, current_app: 0, app_start }
    }

    /// The application that runs next.
    pub fn get_current_app(&self) -> (r: usize)
        ensures
            r == self.current(),
    {
        self.current_app
    }

    /// Moves on to the next application.
    pub fn move_to_next_app(&mut self)
        requires
            old(self).current() < usize::MAX,
        ensures
            final(self).current() == old(self).current() + 1,
            final(self).count() == old(self).count(),
            final(self).starts() == old(self).starts(),
    {
        self.current_app = self.current_app + 1;
    }

    /// The image of application `app_id` to load, as its start address and
    /// length, or `None` when every application has completed.
    pub fn load_app(&self, app_id: usize) -> (r: Option<(usize, usize)>)
        requires
            self.count() <= MAX_APP_NUM,
            app_id < self.count() ==> self.starts()[app_id as int] <= self.starts()[app_id + 1],
        ensures
            app_id >= self.count() ==> r is None,
            app_id < self.count() ==> r == Some(
                (
                    self.starts()[app_id as int],
                    (self.starts()[app_id + 1] - self.starts()[app_id as int]) as usize,
                ),
            ),
    {
        if app_id >= self.num_app {
            return None;
        }
        let start = self.app_start[app_id];
        let end = self.app_start[app_id + 1];
        Some((start, end - start))
    }

    /// The address range of each application, in order.
    pub fn print_app_info(&self) -> (r: Vec<(usize, usize)>)
        requires
            self.count() <= MAX_APP_NUM,
        ensures
            r@.len() == self.count(),
            forall|i: int|
                0 <= i < self.count() ==> #[trigger] r@[i] == (self.starts()[i], self.starts()[i
                    + 1]),
    {
        let mut v: Vec<(usize, usize)> = Vec::new();
        let mut i: usize = 0;
        while i < self.num_app
            invariant
                i <= self.count() <= MAX_APP_NUM,
                v@.len() == i,
                forall|j: int| 0 <= j < i ==> #[trigger] v@[j] == (self.starts()[j], self.starts()[j + 1]),
            decreases self.count() - i,
        {
            v.push((self.app_start[i], self.app_start[i + 1]));
            i = i + 1;
        }
        v
    }

    /// The image of the application to run next (or `None` when all have
    /// completed); the application after it becomes the next one.
    pub fn run_next_app(&mut self) -> (r: Option<(usize, usize)>)
        requires
            old(self).count() <= MAX_APP_NUM,
            old(self).current() < usize::MAX,
            old(self).current() < old(self).count() ==> old(self).starts()[old(self).current()]
                <= old(self).starts()[old(self).current() + 1],
        ensures
            final(self).current() == old(self).current() + 1,
            final(self).count() == old(self).count(),
            final(self).starts() == old(self).starts(),
            old(self).current() >= old(self).count() ==> r is None,
            old(self).current() < old(self).count() ==> r == Some(
                (
                    old(self).starts()[old(self).current()],
                    (old(self).starts()[old(self).current() + 1] - old(self).starts()[old(
                        self,
                    ).current()]) as usize,
                ),
            ),
    {
        let current_app = self.get_current_app();
        let r = self.load_app(current_app);
        self.move_to_next_app();
        r
    }
}

/// The index of the application that runs next.
pub fn taskid(manager: &AppManager) -> (r: usize)
    ensures
        r == manager.current(),
{
    manager.get_current_app()
}

} // verus!
