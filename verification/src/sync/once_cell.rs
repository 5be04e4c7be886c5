//! A cell initialised at most once, possibly by an initialiser that suspends.
//!
//! The initialiser runs once even when several tasks reach the cell while
//! initialisation is still in flight: the later arrivals wait for the first
//! rather than starting their own.
//!
//! The cell does not wait by itself. A caller asks it with
//! [`OnceCell::begin`] what to do next and tells it what became of the
//! initialiser; parking and waking callers is up to whoever drives it.

use vstd::prelude::*;
use vstd::std_specs::cmp::PartialEqSpec;
use vstd::string::StringExecFns;

verus! {

/// What a caller that wants the value does next.
#[derive(Debug, Clone, Copy, PartialEq, Eq, Structural)]
pub enum Begin {
    /// The value is there.
    Ready,
    /// The caller now holds the permit and runs its initialiser.
    Initialise,
    /// Another caller's initialiser is in flight; ask again when woken.
    Wait,
    /// The caller is the initialiser itself and would wait for itself forever.
    Reentered,
}

/// Whom to wake when an initialisation is over.
#[derive(Debug, Clone, Copy, PartialEq, Eq, Structural)]
pub enum Release {
    /// A value landed, so everyone who waits can have it.
    All,
    /// The cell is still empty, so one who waits runs its own initialiser.
    One,
}

/// A cell holding a value that is initialised at most once.
pub struct OnceCell<T> {
    value: Option<T>,
    /// Held for the duration of an initialisation, so a second caller waits
    /// for the first instead of running its own initialiser.
    permit_held: bool,
    /// True only while the initialiser is *being polled*, which on a
    /// single-threaded executor is exactly the window in which no other task
    /// can be running. A call arriving while this is set therefore comes from
    /// the initialiser's own call stack, and waiting for the permit would be
    /// waiting for itself.
    ///
    /// It is deliberately not set while the initialiser is merely *suspended*:
    /// another task reaching the cell then is the case this type exists to
    /// serve, and it must queue rather than be refused.
    in_initialiser: bool,
}

impl<T> OnceCell<T> {
    /// The value, if there is one.
    pub closed spec fn spec_value(&self) -> Option<T> {
        self.value
    }

    /// Whether a caller is initialising the cell.
    pub closed spec fn initialising(&self) -> bool {
        self.permit_held
    }

    /// Whether the initialiser is on the call stack.
    pub closed spec fn on_stack(&self) -> bool {
        self.in_initialiser
    }

    /// Only an empty cell is initialised, and only an initialiser that was
    /// let in is on the call stack.
    pub closed spec fn wf(&self) -> bool {
        &&& self.permit_held ==> self.value is None
        &&& self.in_initialiser ==> self.permit_held
    }

    /// What a caller that wants the value does next.
    pub open spec fn next_step(&self) -> Begin {
        if self.spec_value() is Some {
            Begin::Ready
        } else if self.on_stack() {
            Begin::Reentered
        } else if self.initialising() {
            Begin::Wait
        } else {
            Begin::Initialise
        }
    }

    /// Creates an empty cell.
    pub fn new() -> (cell: Self)
        ensures
            cell.wf(),
            cell.spec_value() is None,
            !cell.initialising(),
            !cell.on_stack(),
    {
        OnceCell { value: None, permit_held: false, in_initialiser: false }
    }

    /// Returns the value, or `None` if the cell is still empty.
    pub fn get(&self) -> (value: Option<&T>)
        ensures
            value == match self.spec_value() {
                Some(value) => Some(&value),
                None => None,
            },
    {
        self.value.as_ref()
    }

    /// Returns whether the cell holds a value.
    pub fn is_initialized(&self) -> (initialized: bool)
        ensures
            initialized <==> self.spec_value() is Some,
    {
        self.get().is_some()
    }

    /// Sets the value if the cell is empty and nothing is initialising it.
    ///
    /// # Errors
    ///
    /// Hands `value` back in two cases: the cell already holds one, or an
    /// initialisation is in flight and suspended in its initialiser.
    /// Overwriting the second would leave that caller waiting for a
    /// computation whose result is then thrown away, so it is reported
    /// instead. Ask [`is_initialized`](Self::is_initialized) if the difference
    /// matters.
    pub fn set(&mut self, value: T) -> (outcome: Result<(), T>)
        requires
            old(self).wf(),
        ensures
            final(self).wf(),
            outcome is Ok <==> old(self).spec_value() is None && !old(self).initialising(),
            outcome is Ok ==> final(self).spec_value() == Some(value) && !final(self).initialising()
                && !final(self).on_stack(),
            outcome matches Err(back) ==> back == value && *final(self) == *old(self),
    {
        // The value is not this caller's to set when another holds the permit,
        // since a value is on its way, nor when one already landed.
        if self.permit_held || self.value.is_some() {
            return Err(value);
        }
        self.value = Some(value);
        Ok(())
    }

    /// Returns a mutable reference to the value, or `None` if the cell is
    /// still empty.
    pub fn get_mut(&mut self) -> (value: Option<&mut T>)
        requires
            old(self).wf(),
        ensures
            final(self).wf(),
            value is Some <==> old(self).spec_value() is Some,
            value matches Some(borrowed) ==> *borrowed == old(self).spec_value()->0,
            final(self).spec_value() == match value {
                Some(borrowed) => Some(*final(borrowed)),
                None => None,
            },
            final(self).initialising() == old(self).initialising(),
            final(self).on_stack() == old(self).on_stack(),
    {
        self.value.as_mut()
    }

    /// Takes the value out, leaving the cell empty and reusable.
    ///
    /// Returns `None` if the cell was empty.
    pub fn take(&mut self) -> (value: Option<T>)
        requires
            old(self).wf(),
        ensures
            final(self).wf(),
            value == old(self).spec_value(),
            final(self).spec_value() is None,
            !final(self).initialising(),
            !final(self).on_stack(),
    {
        // Swapped for a fresh cell rather than emptied in place: an emptied
        // cell has to be initialisable again.
        let mut taken: OnceCell<T> = OnceCell::new();
        core::mem::swap(self, &mut taken);
        taken.into_inner()
    }

    /// Consumes the cell and returns the value it holds, if any.
    pub fn into_inner(self) -> (value: Option<T>)
        ensures
            value == self.spec_value(),
    {
        self.value
    }

    /// Whether the initialiser is on the call stack.
    pub fn is_initialiser_on_stack(&self) -> (on_stack: bool)
        ensures
            on_stack == self.on_stack(),
    {
        self.in_initialiser
    }

    /// What a caller that wants the value does next. Asked on arrival and
    /// again each time a waiting caller is woken or polled: a caller can
    /// arrive outside the initialiser and be polled inside it.
    pub fn begin(&mut self) -> (next: Begin)
        requires
            old(self).wf(),
        ensures
            final(self).wf(),
            next == old(self).next_step(),
            next is Initialise ==> final(self).spec_value() is None && final(self).initialising()
                && !final(self).on_stack(),
            next !is Initialise ==> *final(self) == *old(self),
    {
        if self.value.is_some() {
            return Begin::Ready;
        }
        if self.in_initialiser {
            return Begin::Reentered;
        }
        if self.permit_held {
            return Begin::Wait;
        }
        self.permit_held = true;
        Begin::Initialise
    }

    /// The initialiser goes on the call stack: it is being built or polled.
    pub fn enter_initialiser(&mut self)
        requires
            old(self).wf(),
            old(self).initialising(),
            !old(self).on_stack(),
        ensures
            final(self).wf(),
            final(self).spec_value() == old(self).spec_value(),
            final(self).initialising(),
            final(self).on_stack(),
    {
        self.in_initialiser = true;
    }

    /// The initialiser left the call stack: it suspended, finished or was
    /// unwound.
    pub fn leave_initialiser(&mut self)
        requires
            old(self).wf(),
        ensures
            final(self).wf(),
            final(self).spec_value() == old(self).spec_value(),
            final(self).initialising() == old(self).initialising(),
            !final(self).on_stack(),
    {
        self.in_initialiser = false;
    }

    /// The initialiser came to an end. A value is published; an error is
    /// handed on and leaves the cell empty for the next caller, since a failed
    /// initialiser does not poison the cell.
    pub fn finish<E>(&mut self, outcome: Result<T, E>) -> (published: Result<Release, (E, Release)>)
        requires
            old(self).wf(),
            old(self).initialising(),
            !old(self).on_stack(),
        ensures
            final(self).wf(),
            !final(self).initialising(),
            !final(self).on_stack(),
            match outcome {
                Ok(value) => published == Ok::<_, (E, Release)>(Release::All) && final(self).spec_value()
                    == Some(value),
                Err(error) => published == Err::<Release, _>((error, Release::One))
                    && final(self).spec_value() is None,
            },
    {
        self.permit_held = false;
        match outcome {
            Ok(value) => {
                self.value = Some(value);
                Ok(Release::All)
            },
            Err(error) => Err((error, Release::One)),
        }
    }

    /// The initialiser was dropped or unwound part-way. The cell is empty and
    /// the next caller runs its own.
    pub fn abandon(&mut self) -> (release: Release)
        requires
            old(self).wf(),
            old(self).initialising(),
        ensures
            final(self).wf(),
            release == Release::One,
            final(self).spec_value() is None,
            !final(self).initialising(),
            !final(self).on_stack(),
    {
        self.in_initialiser = false;
        self.permit_held = false;
        Release::One
    }

    /// How the cell is shown, given how its value is.
    pub fn debug(&self, value: &str) -> (text: String)
        ensures
            text@ == if self.spec_value() is Some {
                "OnceCell("@ + value@ + ")"@
            } else {
                "OnceCell(<uninit>)"@
            },
    {
        if self.value.is_none() {
            return "OnceCell(<uninit>)".to_string();
        }
        let mut text: String = "OnceCell(".to_string();
        text.append(value);
        text.append(")");
        text
    }

    /// Two callers are never initialising one cell: from the moment one is
    /// let in until its initialiser is over, nobody else is.
    pub proof fn law_one_initialiser_at_a_time(&self)
        requires
            self.wf(),
            self.initialising(),
        ensures
            self.next_step() is Wait || self.next_step() is Reentered,
    {
    }

    /// A caller is let in exactly where the cell is empty and nobody is
    /// initialising it. It waits exactly for an initialiser that is suspended,
    /// and is turned away exactly where it would wait for itself.
    pub proof fn law_who_is_let_in(&self)
        requires
            self.wf(),
        ensures
            self.next_step() is Initialise <==> self.spec_value() is None && !self.initialising(),
            self.next_step() is Ready <==> self.spec_value() is Some,
            self.next_step() is Reentered <==> self.on_stack(),
            self.next_step() is Wait <==> self.initialising() && !self.on_stack(),
    {
    }

    /// A value that landed stays: the cell lets no caller initialise it again
    /// and refuses to have it set.
    pub proof fn law_a_published_value_stands(&self)
        requires
            self.wf(),
            self.spec_value() is Some,
        ensures
            self.next_step() is Ready,
            !self.initialising(),
            !self.on_stack(),
    {
    }
}

impl<T: Clone> Clone for OnceCell<T> {
    /// Clones the value, if there is one, into a fresh cell.
    ///
    /// The permit is not shared: an initialisation in flight on the original
    /// does not block the copy. An unpublished value is not in the cell yet,
    /// so the clone comes out empty and is free to initialise itself.
    fn clone(&self) -> (copy: Self)
        ensures
            copy.wf(),
            !copy.initialising(),
            !copy.on_stack(),
            copy.spec_value() is Some <==> self.spec_value() is Some,
            copy.spec_value() matches Some(value) ==> cloned(self.spec_value()->0, value),
    {
        match &self.value {
            Some(value) => OnceCell { value: Some(value.clone()), permit_held: false, in_initialiser: false },
            None => OnceCell::new(),
        }
    }
}

impl<T: PartialEq> PartialEq for OnceCell<T> {
    /// Compares the values, so two empty cells are equal and an empty cell
    /// never equals a full one.
    fn eq(&self, other: &Self) -> (equal: bool) {
        match (&self.value, &other.value) {
            (Some(a), Some(b)) => *a == *b,
            (None, None) => true,
            _ => false,
        }
    }
}

/// Cells compare as what they hold does: two empty ones are equal, an empty one
/// never equals a full one, and neither a permit nor who is let in matters.
pub proof fn law_cells_compare_by_value<T: PartialEq>(a: OnceCell<T>, b: OnceCell<T>)
    ensures
        a.spec_value() is None && b.spec_value() is None ==> a.eq_spec(&b),
        a.spec_value() is None != b.spec_value() is None ==> !a.eq_spec(&b),
        a.spec_value() is Some && b.spec_value() is Some ==> (a.eq_spec(&b) <==> a.spec_value()->0.eq_spec(&b.spec_value()->0)),
{
}

impl<T: PartialEq> vstd::std_specs::cmp::PartialEqSpecImpl for OnceCell<T> {
    open spec fn obeys_eq_spec() -> bool {
        T::obeys_eq_spec()
    }

    open spec fn eq_spec(&self, other: &Self) -> bool {
        match (self.spec_value(), other.spec_value()) {
            (Some(a), Some(b)) => a.eq_spec(&b),
            (None, None) => true,
            _ => false,
        }
    }
}

impl<T: Eq> Eq for OnceCell<T> {

}

impl<T> From<T> for OnceCell<T> {
    /// Builds a cell already holding `value`.
    fn from(value: T) -> (cell: Self)
        ensures
            cell.wf(),
            cell.spec_value() == Some(value),
            !cell.initialising(),
            !cell.on_stack(),
    {
        OnceCell { value: Some(value), permit_held: false, in_initialiser: false }
    }
}

impl<T> vstd::std_specs::convert::FromSpecImpl<T> for OnceCell<T> {
    open spec fn obeys_from_spec() -> bool {
        true
    }

    closed spec fn from_spec(value: T) -> OnceCell<T> {
        OnceCell { value: Some(value), permit_held: false, in_initialiser: false }
    }
}

impl<T> Default for OnceCell<T> {
    fn default() -> (cell: Self)
        ensures
            cell.wf(),
            cell.spec_value() is None,
            !cell.initialising(),
            !cell.on_stack(),
    {
        OnceCell::new()
    }
}

} // verus!
