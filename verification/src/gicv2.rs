//! Bookkeeping for the interrupt controller: which lines are enabled and
//! which interrupt is being serviced.
//!
//! The driver knows nothing of tasks or scheduling. Reading and writing the
//! controller's registers is left to the caller, which passes in the
//! identifier the hardware reports and carries out what is decided here.

use vstd::prelude::*;

verus! {

/// Number of interrupt lines the controller distinguishes; identifiers from
/// here up are reserved and never name a device.
pub const IRQ_LINES: usize = 1020;

/// The line on which the preemption timer raises its interrupt.
pub const TIMER_IRQ: usize = 30;

/// The mathematical value of an [`InterruptController`].
pub struct ControllerState {
    /// `init` has run.
    pub initialized: bool,
    /// Lines whose interrupts are delivered.
    pub enabled: Set<usize>,
    /// The interrupt that was acknowledged and is not yet completed.
    pub active: Option<usize>,
}

impl ControllerState {
    /// Only existing lines are enabled, only an enabled line is in service,
    /// and before `init` nothing is enabled or in service.
    pub open spec fn wf(self) -> bool {
        &&& forall|id: usize| self.enabled.contains(id) ==> id < IRQ_LINES
        &&& self.active matches Some(id) ==> self.enabled.contains(id)
        &&& !self.initialized ==> self.enabled == Set::<usize>::empty() && self.active is None
    }

    /// A controller nobody has touched yet.
    pub open spec fn fresh() -> ControllerState {
        ControllerState { initialized: false, enabled: Set::empty(), active: None }
    }

    /// Brings the controller up with every line disabled. Once it is up,
    /// doing so again changes nothing.
    pub open spec fn init(self) -> ControllerState {
        if self.initialized {
            self
        } else {
            ControllerState { initialized: true, enabled: Set::empty(), active: None }
        }
    }

    /// Line `id` can be enabled: the controller is up and the line exists.
    pub open spec fn can_enable(self, id: usize) -> bool {
        self.initialized && id < IRQ_LINES
    }

    /// Line `id` is enabled, where that is possible.
    pub open spec fn enable(self, id: usize) -> ControllerState {
        if self.can_enable(id) {
            ControllerState { enabled: self.enabled.insert(id), ..self }
        } else {
            self
        }
    }

    /// An interrupt reported as `id` can be taken into service: its line is
    /// enabled and no other interrupt is in service.
    pub open spec fn accepts(self, id: usize) -> bool {
        self.initialized && self.enabled.contains(id) && self.active is None
    }

    /// The interrupt reported as `id` is taken into service, where it can be.
    pub open spec fn acknowledge(self, id: usize) -> ControllerState {
        if self.accepts(id) {
            ControllerState { active: Some(id), ..self }
        } else {
            self
        }
    }

    /// Interrupt `id` is completed, if it is the one in service.
    pub open spec fn end_of_interrupt(self, id: usize) -> ControllerState {
        if self.active == Some(id) {
            ControllerState { active: None, ..self }
        } else {
            self
        }
    }

    /// Bringing the controller up twice is the same as doing it once; and an
    /// interrupt that is acknowledged and then completed leaves the controller
    /// as it was.
    pub proof fn lemma_init_is_idempotent(self)
        ensures
            self.init().init() == self.init(),
            forall|id: usize| #[trigger]
                self.accepts(id) ==> self.acknowledge(id).end_of_interrupt(id) == self,
    {
    }
}

/// The interrupt controller as the kernel sees it.
pub struct InterruptController {
    initialized: bool,
    lines: Vec<bool>,
    active: Option<usize>,
}

impl View for InterruptController {
    type V = ControllerState;

    closed spec fn view(&self) -> ControllerState {
        ControllerState {
            initialized: self.initialized,
            enabled: Set::new(|id: usize| id < self.lines.len() && self.lines[id as int]),
            active: self.active,
        }
    }
}

impl InterruptController {
    /// The state is well formed and there is a flag for every line.
    pub closed spec fn wf(&self) -> bool {
        &&& self@.wf()
        &&& self.lines.len() == IRQ_LINES
    }

    /// A controller nobody has touched yet.
    pub fn new() -> (controller: InterruptController)
        ensures
            controller.wf(),
            controller@ == ControllerState::fresh(),
    {
        let controller = InterruptController {
            initialized: false,
            lines: vec![false; IRQ_LINES],
            active: None,
        };
        proof {
            assert(controller@.enabled =~= Set::<usize>::empty());
        }
        controller
    }

    /// Brings the controller up with every line disabled. Calling it again
    /// later changes nothing.
    pub fn init(&mut self)
        requires
            old(self).wf(),
        ensures
            final(self).wf(),
            final(self)@ == old(self)@.init(),
    {
        if !self.initialized {
            self.initialized = true;
            proof {
                assert(self@.enabled =~= Set::<usize>::empty());
            }
        }
    }

    /// Enables line `id` and reports whether that was possible: the
    /// controller must be up and the line must exist. Otherwise nothing
    /// changes.
    pub fn enable(&mut self, id: usize) -> (done: bool)
        requires
            old(self).wf(),
        ensures
            final(self).wf(),
            done == old(self)@.can_enable(id),
            final(self)@ == old(self)@.enable(id),
    {
        if self.initialized && id < IRQ_LINES {
            self.lines.set(id, true);
            proof {
                assert(self@.enabled =~= old(self)@.enabled.insert(id));
            }
            true
        } else {
            false
        }
    }

    /// Whether line `id` is enabled.
    pub fn is_enabled(&self, id: usize) -> (enabled: bool)
        requires
            self.wf(),
        ensures
            enabled == self@.enabled.contains(id),
    {
        id < IRQ_LINES && self.lines[id]
    }

    /// The interrupt in service, if any.
    pub fn active(&self) -> (active: Option<usize>)
        ensures
            active == self@.active,
    {
        self.active
    }

    /// Takes the interrupt that the hardware reports as `signalled` into
    /// service and returns its identifier. Returns `None`, and changes
    /// nothing, when the report cannot be honoured: the controller is not up,
    /// the line is not enabled or does not exist, or another interrupt is
    /// still in service.
    pub fn acknowledge(&mut self, signalled: usize) -> (taken: Option<usize>)
        requires
            old(self).wf(),
        ensures
            final(self).wf(),
            taken == (if old(self)@.accepts(signalled) {
                Some(signalled)
            } else {
                None
            }),
            final(self)@ == old(self)@.acknowledge(signalled),
    {
        if self.initialized && signalled < IRQ_LINES && self.lines[signalled]
            && self.active.is_none() {
            self.active = Some(signalled);
            Some(signalled)
        } else {
            None
        }
    }

    /// Completes interrupt `id` and reports whether it was the one in
    /// service. Otherwise nothing changes.
    pub fn end_of_interrupt(&mut self, id: usize) -> (done: bool)
        requires
            old(self).wf(),
        ensures
            final(self).wf(),
            done == (old(self)@.active == Some(id)),
            final(self)@ == old(self)@.end_of_interrupt(id),
    {
        match self.active {
            Some(active) => {
                if active == id {
                    self.active = None;
                    true
                } else {
                    false
                }
            },
            None => false,
        }
    }
}

} // verus!
