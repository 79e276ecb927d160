//! Process supervision: an ordered, name-keyed collection of managed
//! processes, each owning one terminal buffer and a generation counter.
//!
//! Every start of a process increments its generation; background readers
//! stamp the events they emit with the generation they captured, and the
//! `handle_*` entry points discard any event whose stamp differs from the
//! live generation. Output from a killed instance's file descriptor can
//! therefore never corrupt the buffer of a newly started instance.
//!
//! The supervisor itself performs no I/O: starting a process is split
//! into [`ProcessManager::start_process`], which allocates the new
//! generation and says what to spawn, and
//! [`ProcessManager::confirm_start`], which records that the spawn
//! succeeded. The surrounding program owns the actual channels and
//! readers, mirroring the supervisor's channel state exactly.

use crate::emulator::wf as emu_wf;
use crate::emulator::{init_model, EmuModel, TerminalBuffer};
use vstd::prelude::*;

verus! {

/// Where a managed process stands in its life cycle.
#[derive(Debug, Clone, PartialEq)]
pub enum ProcessStatus {
    /// Started and not yet known to have ended.
    Running,
    /// The command ended on its own with this exit code.
    Exited(i32),
    /// Starting or reading from the process failed, with the cause text.
    Failed(String),
    /// Never started, or killed on request.
    Stopped,
}

/// The abstract value of a [`ProcessStatus`].
#[verifier::ext_equal]
pub ghost enum StatusModel {
    Running,
    Exited(int),
    Failed(Seq<char>),
    Stopped,
}

impl View for ProcessStatus {
    type V = StatusModel;

    open spec fn view(&self) -> StatusModel {
        match self {
            ProcessStatus::Running => StatusModel::Running,
            ProcessStatus::Exited(c) => StatusModel::Exited(*c as int),
            ProcessStatus::Failed(s) => StatusModel::Failed(s@),
            ProcessStatus::Stopped => StatusModel::Stopped,
        }
    }
}

impl ProcessStatus {
    /// The one-character status icon shown in the process list: a
    /// filled dot while running, a cross after a non-zero exit or a
    /// failure, an empty dot otherwise.
    pub fn icon(&self) -> (r: &'static str)
        ensures
            self@ is Running ==> r@ == "●"@,
            (match self@ {
                StatusModel::Exited(c) => c == 0,
                _ => false,
            }) ==> r@ == "○"@,
            (match self@ {
                StatusModel::Exited(c) => c != 0,
                _ => false,
            }) ==> r@ == "✗"@,
            self@ is Failed ==> r@ == "✗"@,
            self@ is Stopped ==> r@ == "○"@,
    {
        match self {
            ProcessStatus::Running => "●",
            ProcessStatus::Exited(c) => if *c == 0 {
                "○"
            } else {
                "✗"
            },
            ProcessStatus::Failed(_) => "✗",
            ProcessStatus::Stopped => "○",
        }
    }
}

/// What a process is: its unique display name, the command it runs, and
/// its per-process input and display options.
#[derive(Debug, Clone)]
pub struct ProcessConfig {
    pub name: String,
    pub command: String,
    pub no_shift_tab: bool,
    pub wrap_enabled: bool,
}

/// The abstract state of one managed process.
#[verifier::ext_equal]
pub ghost struct ProcModel {
    /// Unique display name.
    pub name: Seq<char>,
    /// The command started for this process.
    pub command: Seq<char>,
    /// Per-process option: disable the focus-exit key.
    pub no_shift_tab: bool,
    /// Life-cycle status.
    pub status: StatusModel,
    /// The terminal buffer.
    pub emu: EmuModel,
    /// Whether a pseudo-terminal channel is attached (exactly when the
    /// status is Running).
    pub has_channel: bool,
    /// How many display lines the viewport is scrolled down from the top.
    pub scroll_offset: int,
    /// Whether the viewport follows newly produced output.
    pub auto_scroll: bool,
    /// Whether rendering wraps long lines instead of truncating them.
    pub wrap_enabled: bool,
    /// Monotonic counter of starts; stale events carry an older value.
    pub generation: int,
}

/// One supervised process: configuration, status, terminal buffer,
/// viewport state, and the generation counter.
pub struct ManagedProcess {
    pub(crate) config: ProcessConfig,
    pub(crate) status: ProcessStatus,
    pub(crate) buffer: TerminalBuffer,
    pub(crate) has_channel: bool,
    pub(crate) scroll_offset: usize,
    pub(crate) auto_scroll: bool,
    pub(crate) wrap_enabled: bool,
    pub(crate) generation: u64,
}

impl View for ManagedProcess {
    type V = ProcModel;

    closed spec fn view(&self) -> ProcModel {
        ProcModel {
            name: self.config.name@,
            command: self.config.command@,
            no_shift_tab: self.config.no_shift_tab,
            status: self.status@,
            emu: self.buffer@,
            has_channel: self.has_channel,
            scroll_offset: self.scroll_offset as int,
            auto_scroll: self.auto_scroll,
            wrap_enabled: self.wrap_enabled,
            generation: self.generation as int,
        }
    }
}

/// Well-formedness of one process: its buffer is well-formed and a
/// channel is attached exactly when it is running.
pub open spec fn proc_wf(p: ProcModel) -> bool {
    &&& emu_wf(p.emu)
    &&& (p.status is Running <==> p.has_channel)
    &&& 0 <= p.generation
}

/// The abstract value of a freshly registered process: stopped, with an
/// empty buffer of the given geometry, pinned to the bottom, generation
/// zero.
pub open spec fn fresh_proc(
    name: Seq<char>,
    command: Seq<char>,
    no_shift_tab: bool,
    wrap_enabled: bool,
    cols: int,
    rows: int,
) -> ProcModel {
    ProcModel {
        name: name,
        command: command,
        no_shift_tab: no_shift_tab,
        status: StatusModel::Stopped,
        emu: init_model(cols, rows),
        has_channel: false,
        scroll_offset: 0,
        auto_scroll: true,
        wrap_enabled: wrap_enabled,
        generation: 0,
    }
}

impl ManagedProcess {
    /// A freshly registered process for `config`: stopped, with an empty
    /// buffer sized `cols` by `rows`.
    pub fn new(config: ProcessConfig, cols: usize, rows: usize) -> (r: ManagedProcess)
        ensures
            r@ == fresh_proc(
                config.name@,
                config.command@,
                config.no_shift_tab,
                config.wrap_enabled,
                cols as int,
                rows as int,
            ),
            proc_wf(r@),
    {
        let wrap_enabled = config.wrap_enabled;
        let r = ManagedProcess {
            config,
            status: ProcessStatus::Stopped,
            buffer: TerminalBuffer::new(cols, rows),
            has_channel: false,
            scroll_offset: 0,
            auto_scroll: true,
            wrap_enabled,
            generation: 0,
        };
        proof {
            assert(r@ =~= fresh_proc(
                r.config.name@,
                r.config.command@,
                r.config.no_shift_tab,
                r.config.wrap_enabled,
                cols as int,
                rows as int,
            ));
        }
        r
    }

    /// The process's configuration.
    pub fn config(&self) -> (r: &ProcessConfig)
        ensures
            r.name@ == self@.name,
            r.command@ == self@.command,
            r.no_shift_tab == self@.no_shift_tab,
    {
        &self.config
    }

    /// The process's status.
    pub fn status(&self) -> (r: &ProcessStatus)
        ensures
            r@ == self@.status,
    {
        &self.status
    }

    /// The process's terminal buffer.
    pub fn buffer(&self) -> (r: &TerminalBuffer)
        ensures
            r@ == self@.emu,
    {
        &self.buffer
    }

    /// How far the viewport is scrolled down from the top.
    pub fn scroll_offset(&self) -> (r: usize)
        ensures
            r as int == self@.scroll_offset,
    {
        self.scroll_offset
    }

    /// Whether the viewport follows newly produced output.
    pub fn auto_scroll(&self) -> (r: bool)
        ensures
            r == self@.auto_scroll,
    {
        self.auto_scroll
    }

    /// Stops the viewport from following newly produced output (the
    /// "unpin" half of the pin toggle; the other half is
    /// [`crate::viewport::scroll_to_bottom`]).
    pub fn set_manual_scroll(&mut self)
        ensures
            final(self)@ == (ProcModel { auto_scroll: false, ..old(self)@ }),
    {
        self.auto_scroll = false;
        proof {
            assert(self@ =~= (ProcModel { auto_scroll: false, ..old(self)@ }));
        }
    }

    /// Sets the viewport scroll state (used by the scroll operations).
    pub(crate) fn set_scroll(&mut self, offset: usize, auto: bool)
        ensures
            final(self)@ == (ProcModel {
                scroll_offset: offset as int,
                auto_scroll: auto,
                ..old(self)@
            }),
    {
        self.scroll_offset = offset;
        self.auto_scroll = auto;
        proof {
            assert(self@ =~= (ProcModel {
                scroll_offset: offset as int,
                auto_scroll: auto,
                ..old(self)@
            }));
        }
    }

    /// Whether rendering wraps long lines.
    pub fn wrap_enabled(&self) -> (r: bool)
        ensures
            r == self@.wrap_enabled,
    {
        self.wrap_enabled
    }

    /// The live generation.
    pub fn generation(&self) -> (r: u64)
        ensures
            r as int == self@.generation,
    {
        self.generation
    }
}

/// The abstract state of the supervisor.
#[verifier::ext_equal]
pub ghost struct SupModel {
    /// The processes, in declaration order.
    pub procs: Seq<ProcModel>,
    /// Viewport width shared by every buffer.
    pub cols: int,
    /// Viewport height shared by every buffer.
    pub rows: int,
    /// Grace period, in milliseconds, granted when killing a process.
    pub timeout: int,
}

/// Well-formedness of the supervisor: every process is well-formed and
/// names are unique.
pub open spec fn sup_wf(s: SupModel) -> bool {
    &&& forall|i: int| 0 <= i < s.procs.len() ==> proc_wf(#[trigger] s.procs[i])
    &&& forall|i: int, j: int|
        0 <= i < j < s.procs.len() ==> (#[trigger] s.procs[i]).name != (#[trigger] s.procs[j]).name
}

/// The index of the first process named `name`, or -1 if there is none.
pub open spec fn find_proc(procs: Seq<ProcModel>, name: Seq<char>) -> int
    decreases procs.len(),
{
    if procs.len() == 0 {
        -1
    } else if procs[0].name == name {
        0
    } else {
        let r = find_proc(procs.drop_first(), name);
        if r < 0 {
            -1
        } else {
            r + 1
        }
    }
}

/// A match at `j` with no earlier match is the first match.
pub proof fn lemma_find_proc_at(procs: Seq<ProcModel>, name: Seq<char>, j: int)
    requires
        0 <= j < procs.len(),
        procs[j].name == name,
        forall|k: int| 0 <= k < j ==> (#[trigger] procs[k]).name != name,
    ensures
        find_proc(procs, name) == j,
    decreases procs.len(),
{
    if j == 0 {
    } else {
        assert(procs[0].name != name);
        assert(procs.drop_first()[j - 1] == procs[j]);
        assert forall|k: int| 0 <= k < j - 1 implies (#[trigger] procs.drop_first()[k]).name
            != name by {
            assert(procs.drop_first()[k] == procs[k + 1]);
        }
        lemma_find_proc_at(procs.drop_first(), name, j - 1);
    }
}

/// With no match anywhere, the lookup yields -1.
pub proof fn lemma_find_proc_none(procs: Seq<ProcModel>, name: Seq<char>)
    requires
        forall|k: int| 0 <= k < procs.len() ==> (#[trigger] procs[k]).name != name,
    ensures
        find_proc(procs, name) == -1,
    decreases procs.len(),
{
    if procs.len() > 0 {
        assert forall|k: int| 0 <= k < procs.drop_first().len() implies (#[trigger] procs.drop_first()[
            k
        ]).name != name by {
            assert(procs.drop_first()[k] == procs[k + 1]);
        }
        lemma_find_proc_none(procs.drop_first(), name);
    }
}

/// A found index is in range, carries the name, and is the first such.
pub proof fn lemma_find_proc_valid(procs: Seq<ProcModel>, name: Seq<char>)
    ensures
        find_proc(procs, name) >= 0 ==> {
            &&& find_proc(procs, name) < procs.len()
            &&& procs[find_proc(procs, name)].name == name
        },
    decreases procs.len(),
{
    if procs.len() > 0 && procs[0].name != name {
        lemma_find_proc_valid(procs.drop_first(), name);
        if find_proc(procs.drop_first(), name) >= 0 {
            assert(procs.drop_first()[find_proc(procs.drop_first(), name)] == procs[find_proc(
                procs.drop_first(),
                name,
            ) + 1]);
        }
    }
}

/// The supervisor: owns the named processes in declaration order, the
/// shared viewport geometry, and the kill grace period.
pub struct ProcessManager {
    processes: Vec<ManagedProcess>,
    cols: u16,
    rows: u16,
    timeout: u64,
}

impl View for ProcessManager {
    type V = SupModel;

    closed spec fn view(&self) -> SupModel {
        SupModel {
            procs: self.processes@.map_values(|p: ManagedProcess| p@),
            cols: self.cols as int,
            rows: self.rows as int,
            timeout: self.timeout as int,
        }
    }
}

impl ProcessManager {
    /// An empty supervisor with the given viewport geometry and kill
    /// grace period in milliseconds.
    pub fn new(cols: u16, rows: u16, timeout: u64) -> (r: ProcessManager)
        ensures
            r@ == (SupModel {
                procs: Seq::<ProcModel>::empty(),
                cols: cols as int,
                rows: rows as int,
                timeout: timeout as int,
            }),
            sup_wf(r@),
    {
        let r = ProcessManager { processes: Vec::new(), cols, rows, timeout };
        proof {
            assert(r@.procs =~= Seq::<ProcModel>::empty());
            assert(r@ =~= (SupModel {
                procs: Seq::<ProcModel>::empty(),
                cols: cols as int,
                rows: rows as int,
                timeout: timeout as int,
            }));
        }
        r
    }

    /// The kill grace period, in milliseconds.
    pub fn timeout(&self) -> (r: u64)
        ensures
            r as int == self@.timeout,
    {
        self.timeout
    }

    /// The index of the process named `name`, if any.
    fn index_of(&self, name: &str) -> (r: Option<usize>)
        ensures
            match r {
                Some(i) => i < self@.procs.len() && i as int == find_proc(self@.procs, name@),
                None => find_proc(self@.procs, name@) == -1,
            },
    {
        let key: String = name.to_owned();
        let n = self.processes.len();
        let mut i: usize = 0;
        while i < n
            invariant
                n == self@.procs.len(),
                0 <= i <= n,
                key@ == name@,
                forall|k: int| 0 <= k < i ==> (#[trigger] self@.procs[k]).name != name@,
            decreases n - i,
        {
            if self.processes[i].config.name == key {
                proof {
                    lemma_find_proc_at(self@.procs, name@, i as int);
                }
                return Some(i);
            }
            i = i + 1;
        }
        proof {
            lemma_find_proc_none(self@.procs, name@);
        }
        None
    }

    /// Registers a stopped process for `config`, in declaration order.
    /// A name that is already taken is ignored, keeping names unique.
    pub fn add_process(&mut self, config: ProcessConfig)
        requires
            sup_wf(old(self)@),
        ensures
            sup_wf(final(self)@),
            find_proc(old(self)@.procs, config.name@) >= 0 ==> final(self)@ == old(self)@,
            find_proc(old(self)@.procs, config.name@) == -1 ==> final(self)@ == (SupModel {
                procs: old(self)@.procs.push(
                    fresh_proc(
                        config.name@,
                        config.command@,
                        config.no_shift_tab,
                        config.wrap_enabled,
                        old(self)@.cols,
                        old(self)@.rows,
                    ),
                ),
                ..old(self)@
            }),
    {
        let ghost m0 = self@;
        let existing = self.index_of(config.name.as_str());
        match existing {
            Some(_) => {
                proof {
                    lemma_find_proc_valid(m0.procs, config.name@);
                }
            },
            None => {
                let ghost fp = fresh_proc(
                    config.name@,
                    config.command@,
                    config.no_shift_tab,
                    config.wrap_enabled,
                    m0.cols,
                    m0.rows,
                );
                let p = ManagedProcess::new(config, self.cols as usize, self.rows as usize);
                self.processes.push(p);
                proof {
                    assert(self@.procs =~= m0.procs.push(fp));
                    assert(self@ =~= (SupModel { procs: m0.procs.push(fp), ..m0 }));
                    assert forall|i: int| 0 <= i < self@.procs.len() implies proc_wf(
                        #[trigger] self@.procs[i],
                    ) by {
                        if i < m0.procs.len() {
                            assert(self@.procs[i] == m0.procs[i]);
                        }
                    }
                    assert forall|i: int, j: int| 0 <= i < j < self@.procs.len() implies (
                    #[trigger] self@.procs[i]).name != (#[trigger] self@.procs[j]).name by {
                        if j < m0.procs.len() {
                        } else {
                            assert(self@.procs[j].name == fp.name);
                            assert(self@.procs[i] == m0.procs[i]);
                            if self@.procs[i].name == fp.name {
                                lemma_find_proc_found(m0.procs, fp.name, i);
                            }
                        }
                    }
                }
            },
        }
    }

    /// How many processes are registered.
    pub fn process_count(&self) -> (r: usize)
        ensures
            r as int == self@.procs.len(),
    {
        self.processes.len()
    }

    /// The process names, in declaration order.
    pub fn process_names(&self) -> (r: Vec<String>)
        ensures
            r@.len() == self@.procs.len(),
            forall|i: int| 0 <= i < r@.len() ==> (#[trigger] r@[i])@ == self@.procs[i].name,
    {
        let n = self.processes.len();
        let mut r: Vec<String> = Vec::new();
        let mut i: usize = 0;
        while i < n
            invariant
                n == self@.procs.len(),
                0 <= i <= n,
                r@.len() == i,
                forall|k: int| 0 <= k < i ==> (#[trigger] r@[k])@ == self@.procs[k].name,
            decreases n - i,
        {
            r.push(self.processes[i].config.name.clone());
            i = i + 1;
        }
        r
    }

    /// The process named `name`, for reading.
    pub fn get_process(&self, name: &str) -> (r: Option<&ManagedProcess>)
        ensures
            match r {
                Some(p) => {
                    &&& find_proc(self@.procs, name@) >= 0
                    &&& p@ == self@.procs[find_proc(self@.procs, name@)]
                },
                None => find_proc(self@.procs, name@) == -1,
            },
    {
        match self.index_of(name) {
            Some(i) => Some(&self.processes[i]),
            None => None,
        }
    }

    /// The process named `name`, for mutation (scrolling, pinning): the
    /// supervisor afterwards holds exactly the old processes with the
    /// named one replaced by whatever the caller left behind the
    /// reference. Nothing reachable through the reference can change the
    /// process's name, so the supervisor's name uniqueness is safe.
    pub fn get_process_mut(&mut self, name: &str) -> (r: Option<&mut ManagedProcess>)
        ensures
            ({
                let i = find_proc(old(self)@.procs, name@);
                match r {
                    Some(p) => {
                        &&& i >= 0
                        &&& (*p)@ == old(self)@.procs[i]
                        &&& final(self)@ == (SupModel {
                            procs: old(self)@.procs.update(i, (*final(p))@),
                            ..old(self)@
                        })
                    },
                    None => {
                        &&& i == -1
                        &&& final(self)@ == old(self)@
                    },
                }
            }),
    {
        match self.index_of(name) {
            Some(i) => Some(&mut self.processes[i]),
            None => None,
        }
    }

    /// How many processes are not running.
    pub fn stopped_count(&self) -> (r: usize)
        ensures
            r as int == count_not_running(self@.procs),
    {
        let n = self.processes.len();
        let mut count: usize = 0;
        let mut i: usize = 0;
        proof {
            assert(self@.procs.take(0) =~= Seq::<ProcModel>::empty());
        }
        while i < n
            invariant
                n == self@.procs.len(),
                0 <= i <= n,
                count as int == count_not_running(self@.procs.take(i as int)),
                count <= i,
            decreases n - i,
        {
            let running = match self.processes[i].status {
                ProcessStatus::Running => true,
                _ => false,
            };
            if !running {
                count = count + 1;
            }
            proof {
                assert(self@.procs.take(i as int + 1).drop_last() =~= self@.procs.take(i as int));
                assert(self@.procs.take(i as int + 1).last() == self@.procs[i as int]);
            }
            i = i + 1;
        }
        proof {
            assert(self@.procs.take(n as int) =~= self@.procs);
        }
        count
    }

    /// Whether any process is still running.
    pub fn any_running(&self) -> (r: bool)
        ensures
            r == exists|i: int|
                0 <= i < self@.procs.len() && (#[trigger] self@.procs[i]).status is Running,
    {
        let n = self.processes.len();
        let mut i: usize = 0;
        while i < n
            invariant
                n == self@.procs.len(),
                0 <= i <= n,
                forall|k: int| 0 <= k < i ==> !((#[trigger] self@.procs[k]).status is Running),
            decreases n - i,
        {
            let running = match self.processes[i].status {
                ProcessStatus::Running => true,
                _ => false,
            };
            if running {
                proof {
                    assert(self@.procs[i as int] == self.processes@[i as int]@);
                    assert(self@.procs[i as int].status is Running);
                }
                return true;
            }
            i = i + 1;
        }
        false
    }
}

/// How many of the processes are not running.
pub open spec fn count_not_running(procs: Seq<ProcModel>) -> int
    decreases procs.len(),
{
    if procs.len() == 0 {
        0
    } else {
        count_not_running(procs.drop_last()) + if procs.last().status is Running {
            0int
        } else {
            1int
        }
    }
}

// ---------------------------------------------------------------------------
// Transitions of one process's life cycle.
// ---------------------------------------------------------------------------

/// A start being prepared: the generation advances by exactly one, so
/// that events stamped with any earlier generation become stale.
pub open spec fn sup_prepare(p: ProcModel) -> ProcModel {
    ProcModel { generation: p.generation + 1, ..p }
}

/// A successful spawn recorded: running, with a channel attached.
pub open spec fn sup_confirm(p: ProcModel) -> ProcModel {
    ProcModel { status: StatusModel::Running, has_channel: true, ..p }
}

/// A kill: stopped, channel detached; the buffer and the generation are
/// untouched. On a process with no channel this changes nothing.
pub open spec fn sup_kill(p: ProcModel) -> ProcModel {
    ProcModel { status: StatusModel::Stopped, has_channel: false, ..p }
}

/// An exit event applied: the exit code is recorded (a missing code
/// counts as zero) and the channel is dropped.
pub open spec fn sup_exit(p: ProcModel, code: Option<i32>) -> ProcModel {
    ProcModel {
        status: StatusModel::Exited(
            match code {
                Some(c) => c as int,
                None => 0,
            },
        ),
        has_channel: false,
        ..p
    }
}

/// An error event applied: the failure text is recorded and the channel
/// is dropped.
pub open spec fn sup_fail(p: ProcModel, msg: Seq<char>) -> ProcModel {
    ProcModel { status: StatusModel::Failed(msg), has_channel: false, ..p }
}

/// An output event applied: the bytes run through the terminal engine,
/// the pending query replies are drained (the caller forwards them to
/// the channel), and — when the viewport is pinned — the scroll offset
/// is recomputed so the bottom of the content stays visible.
pub open spec fn sup_output(p: ProcModel, data: Seq<u8>, cols: int, rows: int) -> ProcModel {
    let emu2 = crate::emulator::write_seq(p.emu, data);
    let emu3 = EmuModel { resp: Seq::<Seq<u8>>::empty(), ..emu2 };
    let total = crate::viewport::output_total(emu3.lines, p.wrap_enabled, cols);
    let off = if p.auto_scroll {
        if total > rows {
            total - rows
        } else {
            0
        }
    } else {
        p.scroll_offset
    };
    ProcModel { emu: emu3, scroll_offset: off, ..p }
}

/// An update of one process keeps the supervisor well-formed as long as
/// the process stays well-formed and keeps its name.
pub proof fn lemma_sup_wf_update(s: SupModel, s2: SupModel, i: int, p: ProcModel)
    requires
        sup_wf(s),
        0 <= i < s.procs.len(),
        s2 == (SupModel { procs: s.procs.update(i, p), ..s }),
        p.name == s.procs[i].name,
        proc_wf(p),
    ensures
        sup_wf(s2),
{
    assert forall|k: int| 0 <= k < s2.procs.len() implies proc_wf(#[trigger] s2.procs[k]) by {
        if k != i {
            assert(s2.procs[k] == s.procs[k]);
        }
    }
    assert forall|k: int, j: int| 0 <= k < j < s2.procs.len() implies (#[trigger] s2.procs[k]).name
        != (#[trigger] s2.procs[j]).name by {
        assert(s2.procs[k].name == s.procs[k].name);
        assert(s2.procs[j].name == s.procs[j].name);
    }
}

/// A match anywhere means the lookup succeeds.
pub proof fn lemma_find_proc_found(procs: Seq<ProcModel>, name: Seq<char>, k: int)
    requires
        0 <= k < procs.len(),
        procs[k].name == name,
    ensures
        find_proc(procs, name) >= 0,
    decreases procs.len(),
{
    if procs[0].name != name {
        assert(procs.drop_first()[k - 1] == procs[k]);
        lemma_find_proc_found(procs.drop_first(), name, k - 1);
    }
}

/// What the surrounding program must spawn after
/// [`ProcessManager::start_process`]: the command, sized to the current
/// geometry, and the generation that the new instance's reader must
/// stamp on every event it emits.
pub struct StartRequest {
    pub command: String,
    pub generation: u64,
    pub cols: u16,
    pub rows: u16,
}

/// Failure of a supervisor operation.
#[derive(Debug, Clone, PartialEq)]
pub enum SupervisorError {
    /// No process with the given name is registered.
    UnknownProcess,
}

impl ProcessManager {
    /// Begins starting the process named `name`: advances its generation
    /// by exactly one — making every event stamped with an older
    /// generation stale — and returns what to spawn. The caller spawns
    /// the command and, on success, records it with
    /// [`ProcessManager::confirm_start`]; on failure the process keeps
    /// its previous status. Fails exactly on an unknown name.
    pub fn start_process(&mut self, name: &str) -> (r: Result<
        StartRequest,
        SupervisorError,
    >)
        requires
            sup_wf(old(self)@),
            find_proc(old(self)@.procs, name@) >= 0 ==> old(self)@.procs[find_proc(
                old(self)@.procs,
                name@,
            )].generation + 1 <= u64::MAX,
        ensures
            sup_wf(final(self)@),
            ({
                let i = find_proc(old(self)@.procs, name@);
                match r {
                    Ok(req) => {
                        &&& i >= 0
                        &&& final(self)@ == (SupModel {
                            procs: old(self)@.procs.update(i, sup_prepare(old(self)@.procs[i])),
                            ..old(self)@
                        })
                        &&& req.command@ == old(self)@.procs[i].command
                        &&& req.generation as int == old(self)@.procs[i].generation + 1
                        &&& req.cols as int == old(self)@.cols
                        &&& req.rows as int == old(self)@.rows
                    },
                    Err(e) => {
                        &&& i == -1
                        &&& final(self)@ == old(self)@
                        &&& e is UnknownProcess
                    },
                }
            }),
    {
        let ghost m0 = self@;
        let i = match self.index_of(name) {
            Some(i) => i,
            None => {
                return Err(SupervisorError::UnknownProcess);
            },
        };
        let g = self.processes[i].generation;
        let ghost v0 = self.processes@;
        self.processes[i].generation = g + 1;
        let command = self.processes[i].config.command.clone();
        proof {
            assert(self.processes@ == v0.update(i as int, self.processes@[i as int]));
            assert(self@.procs[i as int] =~= sup_prepare(m0.procs[i as int]));
            assert forall|k: int|
                0 <= k < self@.procs.len() && k != i as int implies self@.procs[k] == m0.procs[
                k
            ] by {
                assert(self.processes@[k] == v0[k]);
            }
            assert(self@.procs =~= m0.procs.update(i as int, sup_prepare(m0.procs[i as int])));
            assert(self@ =~= (SupModel { procs: self@.procs, ..m0 }));
            lemma_sup_wf_update(m0, self@, i as int, sup_prepare(m0.procs[i as int]));
        }
        Ok(StartRequest { command, generation: g + 1, cols: self.cols, rows: self.rows })
    }

    /// Records that the spawn requested by
    /// [`ProcessManager::start_process`] succeeded: the process is now
    /// running with a channel attached. A no-op on an unknown name.
    pub fn confirm_start(&mut self, name: &str)
        requires
            sup_wf(old(self)@),
        ensures
            sup_wf(final(self)@),
            ({
                let i = find_proc(old(self)@.procs, name@);
                if i >= 0 {
                    final(self)@ == (SupModel {
                        procs: old(self)@.procs.update(i, sup_confirm(old(self)@.procs[i])),
                        ..old(self)@
                    })
                } else {
                    final(self)@ == old(self)@
                }
            }),
    {
        let ghost m0 = self@;
        let i = match self.index_of(name) {
            Some(i) => i,
            None => {
                return ;
            },
        };
        let ghost v0 = self.processes@;
        self.processes[i].status = ProcessStatus::Running;
        let ghost v1 = self.processes@;
        self.processes[i].has_channel = true;
        proof {
            assert(v1 == v0.update(i as int, v1[i as int]));
            assert(self.processes@ == v1.update(i as int, self.processes@[i as int]));
            assert(self@.procs[i as int] =~= sup_confirm(m0.procs[i as int]));
            assert forall|k: int|
                0 <= k < self@.procs.len() && k != i as int implies self@.procs[k] == m0.procs[
                k
            ] by {
                assert(v1[k] == v0[k]);
                assert(self.processes@[k] == v1[k]);
            }
            assert(self@.procs =~= m0.procs.update(i as int, sup_confirm(m0.procs[i as int])));
            assert(self@ =~= (SupModel { procs: self@.procs, ..m0 }));
            lemma_sup_wf_update(m0, self@, i as int, sup_confirm(m0.procs[i as int]));
        }
    }

    /// Kills the process named `name`: stopped, channel detached, buffer
    /// and generation untouched. Returns whether a channel was attached,
    /// so the caller knows to terminate the operating-system process.
    /// Idempotent, and a no-op both on an unknown name and on a process
    /// that is not running.
    pub fn kill_process(&mut self, name: &str) -> (had: bool)
        requires
            sup_wf(old(self)@),
        ensures
            sup_wf(final(self)@),
            ({
                let i = find_proc(old(self)@.procs, name@);
                if i >= 0 {
                    &&& final(self)@ == (SupModel {
                        procs: old(self)@.procs.update(i, sup_kill(old(self)@.procs[i])),
                        ..old(self)@
                    })
                    &&& had == old(self)@.procs[i].has_channel
                } else {
                    &&& final(self)@ == old(self)@
                    &&& !had
                }
            }),
    {
        let ghost m0 = self@;
        let i = match self.index_of(name) {
            Some(i) => i,
            None => {
                return false;
            },
        };
        let had = self.processes[i].has_channel;
        let ghost v0 = self.processes@;
        self.processes[i].status = ProcessStatus::Stopped;
        let ghost v1 = self.processes@;
        self.processes[i].has_channel = false;
        proof {
            assert(v1 == v0.update(i as int, v1[i as int]));
            assert(self.processes@ == v1.update(i as int, self.processes@[i as int]));
            assert(self@.procs[i as int] =~= sup_kill(m0.procs[i as int]));
            assert forall|k: int|
                0 <= k < self@.procs.len() && k != i as int implies self@.procs[k] == m0.procs[
                k
            ] by {
                assert(v1[k] == v0[k]);
                assert(self.processes@[k] == v1[k]);
            }
            assert(self@.procs =~= m0.procs.update(i as int, sup_kill(m0.procs[i as int])));
            assert(self@ =~= (SupModel { procs: self@.procs, ..m0 }));
            lemma_sup_wf_update(m0, self@, i as int, sup_kill(m0.procs[i as int]));
        }
        had
    }

    /// Applies an exit event stamped with generation `gen`: if the name
    /// is known and the stamp equals the live generation, the process
    /// becomes Exited (a missing code counts as zero) and its channel is
    /// dropped; otherwise the event is stale and nothing changes.
    /// Returns whether the event was applied, so the caller can drop its
    /// side of the channel.
    pub fn handle_exit(&mut self, name: &str, gen: u64, code: Option<i32>) -> (applied: bool)
        requires
            sup_wf(old(self)@),
        ensures
            sup_wf(final(self)@),
            ({
                let i = find_proc(old(self)@.procs, name@);
                if i >= 0 && old(self)@.procs[i].generation == gen as int {
                    &&& final(self)@ == (SupModel {
                        procs: old(self)@.procs.update(i, sup_exit(old(self)@.procs[i], code)),
                        ..old(self)@
                    })
                    &&& applied
                } else {
                    &&& final(self)@ == old(self)@
                    &&& !applied
                }
            }),
    {
        let ghost m0 = self@;
        let i = match self.index_of(name) {
            Some(i) => i,
            None => {
                return false;
            },
        };
        if self.processes[i].generation != gen {
            return false;
        }
        let c = match code {
            Some(c) => c,
            None => 0,
        };
        let ghost v0 = self.processes@;
        self.processes[i].status = ProcessStatus::Exited(c);
        let ghost v1 = self.processes@;
        self.processes[i].has_channel = false;
        proof {
            assert(v1 == v0.update(i as int, v1[i as int]));
            assert(self.processes@ == v1.update(i as int, self.processes@[i as int]));
            assert(self@.procs[i as int] =~= sup_exit(m0.procs[i as int], code));
            assert forall|k: int|
                0 <= k < self@.procs.len() && k != i as int implies self@.procs[k] == m0.procs[
                k
            ] by {
                assert(v1[k] == v0[k]);
                assert(self.processes@[k] == v1[k]);
            }
            assert(self@.procs =~= m0.procs.update(i as int, sup_exit(m0.procs[i as int], code)));
            assert(self@ =~= (SupModel { procs: self@.procs, ..m0 }));
            lemma_sup_wf_update(m0, self@, i as int, sup_exit(m0.procs[i as int], code));
        }
        true
    }

    /// Applies an error event stamped with generation `gen`: if the name
    /// is known and the stamp equals the live generation, the process
    /// becomes Failed with the cause text and its channel is dropped;
    /// otherwise the event is stale and nothing changes. Returns whether
    /// the event was applied.
    pub fn handle_error(&mut self, name: &str, gen: u64, error: &str) -> (applied: bool)
        requires
            sup_wf(old(self)@),
        ensures
            sup_wf(final(self)@),
            ({
                let i = find_proc(old(self)@.procs, name@);
                if i >= 0 && old(self)@.procs[i].generation == gen as int {
                    &&& final(self)@ == (SupModel {
                        procs: old(self)@.procs.update(i, sup_fail(old(self)@.procs[i], error@)),
                        ..old(self)@
                    })
                    &&& applied
                } else {
                    &&& final(self)@ == old(self)@
                    &&& !applied
                }
            }),
    {
        let ghost m0 = self@;
        let i = match self.index_of(name) {
            Some(i) => i,
            None => {
                return false;
            },
        };
        if self.processes[i].generation != gen {
            return false;
        }
        let msg: String = error.to_owned();
        let ghost v0 = self.processes@;
        self.processes[i].status = ProcessStatus::Failed(msg);
        let ghost v1 = self.processes@;
        self.processes[i].has_channel = false;
        proof {
            assert(v1 == v0.update(i as int, v1[i as int]));
            assert(self.processes@ == v1.update(i as int, self.processes@[i as int]));
            assert(self@.procs[i as int] =~= sup_fail(m0.procs[i as int], error@));
            assert forall|k: int|
                0 <= k < self@.procs.len() && k != i as int implies self@.procs[k] == m0.procs[
                k
            ] by {
                assert(v1[k] == v0[k]);
                assert(self.processes@[k] == v1[k]);
            }
            assert(self@.procs =~= m0.procs.update(i as int, sup_fail(m0.procs[i as int], error@)));
            assert(self@ =~= (SupModel { procs: self@.procs, ..m0 }));
            lemma_sup_wf_update(m0, self@, i as int, sup_fail(m0.procs[i as int], error@));
        }
        true
    }

    /// Applies an output event stamped with generation `gen`: if the
    /// name is known and the stamp equals the live generation, the bytes
    /// run through the process's terminal engine, the pending query
    /// replies are drained and returned (the caller must write them back
    /// to the channel), and a pinned viewport is scrolled so the bottom
    /// of the content stays visible. Otherwise the event is stale:
    /// nothing changes and nothing is returned.
    #[verifier::rlimit(100)]
    pub fn handle_output(&mut self, name: &str, gen: u64, data: &[u8]) -> (r: Vec<Vec<u8>>)
        requires
            sup_wf(old(self)@),
        ensures
            sup_wf(final(self)@),
            ({
                let i = find_proc(old(self)@.procs, name@);
                if i >= 0 && old(self)@.procs[i].generation == gen as int {
                    &&& final(self)@ == (SupModel {
                        procs: old(self)@.procs.update(
                            i,
                            sup_output(old(self)@.procs[i], data@, old(self)@.cols, old(self)@.rows),
                        ),
                        ..old(self)@
                    })
                    &&& r@.map_values(|v: Vec<u8>| v@) == crate::emulator::write_seq(
                        old(self)@.procs[i].emu,
                        data@,
                    ).resp
                } else {
                    &&& final(self)@ == old(self)@
                    &&& r@.len() == 0
                }
            }),
    {
        let ghost m0 = self@;
        let i = match self.index_of(name) {
            Some(i) => i,
            None => {
                let r: Vec<Vec<u8>> = Vec::new();
                return r;
            },
        };
        if self.processes[i].generation != gen {
            let r: Vec<Vec<u8>> = Vec::new();
            return r;
        }
        let ghost p0 = m0.procs[i as int];
        let ghost emu2 = crate::emulator::write_seq(p0.emu, data@);
        let ghost emu3 = (EmuModel { resp: Seq::<Seq<u8>>::empty(), ..emu2 });

        let ghost v0 = self.processes@;
        self.processes[i].buffer.write(data);
        let ghost v1 = self.processes@;
        proof {
            assert(v1 == v0.update(i as int, v1[i as int]));
            assert(v1[i as int].buffer@ == emu2);
        }
        let responses = self.processes[i].buffer.take_pending_responses();
        let ghost v2 = self.processes@;
        proof {
            assert(v2 == v1.update(i as int, v2[i as int]));
            assert(v2[i as int].buffer@ =~= emu3);
            assert(responses@.map_values(|v: Vec<u8>| v@) == emu2.resp);
        }
        if self.processes[i].auto_scroll {
            let visible = self.rows as usize;
            proof {
                assert(self@.procs[i as int].emu == emu3);
                assert(proc_wf(self@.procs[i as int]));
                crate::emulator::lemma_trimmed_len_bounds(emu3.lines);
            }
            let content = self.processes[i].buffer.content_line_count();
            let total: usize;
            if self.processes[i].wrap_enabled && self.cols > 0 {
                let w = self.cols as usize;
                let s = crate::viewport::sum_wrapped(&self.processes[i], w, content);
                total = if s < 1 {
                    1
                } else {
                    s
                };
            } else {
                total = content;
            }
            proof {
                assert(total as int == crate::viewport::output_total(
                    emu3.lines,
                    p0.wrap_enabled,
                    m0.cols,
                ));
            }
            let off = if total > visible {
                total - visible
            } else {
                0
            };
            let ghost v3 = self.processes@;
            self.processes[i].scroll_offset = off;
            proof {
                assert(self.processes@ == v3.update(i as int, self.processes@[i as int]));
                assert(self@.procs[i as int] =~= sup_output(p0, data@, m0.cols, m0.rows));
                assert forall|k: int|
                    0 <= k < self@.procs.len() && k != i as int implies self@.procs[k] == m0.procs[
                    k
                ] by {
                    assert(v1[k] == v0[k]);
                    assert(v2[k] == v1[k]);
                    assert(v3[k] == v2[k]);
                    assert(self.processes@[k] == v3[k]);
                }
                assert(self@.procs =~= m0.procs.update(
                    i as int,
                    sup_output(p0, data@, m0.cols, m0.rows),
                ));
                assert(self@ =~= (SupModel { procs: self@.procs, ..m0 }));
                lemma_sup_wf_update(m0, self@, i as int, sup_output(p0, data@, m0.cols, m0.rows));
            }
        } else {
            proof {
                assert(self@.procs[i as int] =~= sup_output(p0, data@, m0.cols, m0.rows));
                assert forall|k: int|
                    0 <= k < self@.procs.len() && k != i as int implies self@.procs[k] == m0.procs[
                    k
                ] by {
                    assert(v1[k] == v0[k]);
                    assert(v2[k] == v1[k]);
                    assert(self.processes@[k] == v2[k]);
                }
                assert(self@.procs =~= m0.procs.update(
                    i as int,
                    sup_output(p0, data@, m0.cols, m0.rows),
                ));
                assert(self@ =~= (SupModel { procs: self@.procs, ..m0 }));
                lemma_sup_wf_update(m0, self@, i as int, sup_output(p0, data@, m0.cols, m0.rows));
            }
        }
        responses
    }

    /// Updates the shared viewport geometry and every process's buffer
    /// geometry; content is never reflowed. The caller also resizes the
    /// operating-system channels of running processes.
    pub fn resize(&mut self, cols: u16, rows: u16)
        requires
            sup_wf(old(self)@),
        ensures
            sup_wf(final(self)@),
            final(self)@.cols == cols as int,
            final(self)@.rows == rows as int,
            final(self)@.timeout == old(self)@.timeout,
            final(self)@.procs.len() == old(self)@.procs.len(),
            forall|k: int|
                0 <= k < old(self)@.procs.len() ==> #[trigger] final(self)@.procs[k] == (ProcModel {
                    emu: EmuModel {
                        cols: cols as int,
                        rows: rows as int,
                        ..old(self)@.procs[k].emu
                    },
                    ..old(self)@.procs[k]
                }),
    {
        let ghost m0 = self@;
        self.cols = cols;
        self.rows = rows;
        let n = self.processes.len();
        let mut i: usize = 0;
        while i < n
            invariant
                n == m0.procs.len(),
                0 <= i <= n,
                self@.procs.len() == n,
                self@.cols == cols as int,
                self@.rows == rows as int,
                self@.timeout == m0.timeout,
                forall|k: int|
                    0 <= k < i ==> #[trigger] self@.procs[k] == (ProcModel {
                        emu: EmuModel {
                            cols: cols as int,
                            rows: rows as int,
                            ..m0.procs[k].emu
                        },
                        ..m0.procs[k]
                    }),
                forall|k: int| i <= k < n ==> #[trigger] self@.procs[k] == m0.procs[k],
            decreases n - i,
        {
            let ghost v0 = self.processes@;
            let ghost pm0 = self@.procs;
            proof {
                assert(pm0[i as int] == m0.procs[i as int]);
                assert(pm0[i as int] == v0[i as int]@);
            }
            self.processes[i].buffer.resize(self.cols as usize, self.rows as usize);
            proof {
                assert(self.processes@ == v0.update(i as int, self.processes@[i as int]));
                assert(self@.procs[i as int] == self.processes@[i as int]@);
                assert(self@.procs[i as int] =~= (ProcModel {
                    emu: EmuModel {
                        cols: cols as int,
                        rows: rows as int,
                        ..m0.procs[i as int].emu
                    },
                    ..m0.procs[i as int]
                }));
                assert forall|k: int|
                    0 <= k < n && k != i as int implies self@.procs[k] == v0.map_values(
                    |p: ManagedProcess| p@,
                )[k] by {
                    assert(self.processes@[k] == v0[k]);
                }
            }
            i = i + 1;
        }
        proof {
            assert forall|k: int| 0 <= k < n implies proc_wf(#[trigger] self@.procs[k]) by {}
            assert forall|k: int, j: int| 0 <= k < j < n implies (#[trigger] self@.procs[k]).name
                != (#[trigger] self@.procs[j]).name by {
                assert(self@.procs[k].name == m0.procs[k].name);
                assert(self@.procs[j].name == m0.procs[j].name);
            }
        }
    }

    /// Force-stops every process that is still running: status Stopped,
    /// channel detached. The caller force-kills the operating-system
    /// processes first.
    pub fn finish_shutdown(&mut self)
        requires
            sup_wf(old(self)@),
        ensures
            sup_wf(final(self)@),
            final(self)@.cols == old(self)@.cols,
            final(self)@.rows == old(self)@.rows,
            final(self)@.timeout == old(self)@.timeout,
            final(self)@.procs.len() == old(self)@.procs.len(),
            forall|k: int|
                0 <= k < old(self)@.procs.len() ==> #[trigger] final(self)@.procs[k] == (
                if old(self)@.procs[k].status is Running {
                    sup_kill(old(self)@.procs[k])
                } else {
                    old(self)@.procs[k]
                }),
    {
        let ghost m0 = self@;
        let n = self.processes.len();
        let mut i: usize = 0;
        while i < n
            invariant
                n == m0.procs.len(),
                0 <= i <= n,
                self@.procs.len() == n,
                self@.cols == m0.cols,
                self@.rows == m0.rows,
                self@.timeout == m0.timeout,
                forall|k: int|
                    0 <= k < i ==> #[trigger] self@.procs[k] == (
                    if m0.procs[k].status is Running {
                        sup_kill(m0.procs[k])
                    } else {
                        m0.procs[k]
                    }),
                forall|k: int| i <= k < n ==> #[trigger] self@.procs[k] == m0.procs[k],
            decreases n - i,
        {
            let running = match self.processes[i].status {
                ProcessStatus::Running => true,
                _ => false,
            };
            if running {
                let ghost v0 = self.processes@;
                let ghost pm0 = self@.procs;
                proof {
                    assert(pm0[i as int] == m0.procs[i as int]);
                    assert(pm0[i as int] == v0[i as int]@);
                    assert(m0.procs[i as int].status is Running);
                }
                self.processes[i].status = ProcessStatus::Stopped;
                let ghost v1 = self.processes@;
                self.processes[i].has_channel = false;
                proof {
                    assert(v1 == v0.update(i as int, v1[i as int]));
                    assert(self.processes@ == v1.update(i as int, self.processes@[i as int]));
                    assert(self@.procs[i as int] =~= sup_kill(m0.procs[i as int]));
                    assert forall|k: int|
                        0 <= k < n && k != i as int implies self@.procs[k] == v0.map_values(
                        |p: ManagedProcess| p@,
                    )[k] by {
                        assert(v1[k] == v0[k]);
                        assert(self.processes@[k] == v1[k]);
                    }
                }
            }
            i = i + 1;
        }
        proof {
            assert forall|k: int| 0 <= k < n implies proc_wf(#[trigger] self@.procs[k]) by {}
            assert forall|k: int, j: int| 0 <= k < j < n implies (#[trigger] self@.procs[k]).name
                != (#[trigger] self@.procs[j]).name by {
                assert(self@.procs[k].name == m0.procs[k].name);
                assert(self@.procs[j].name == m0.procs[j].name);
            }
        }
    }
}

} // verus!
