//! The callback of a tokenizer, with the record of what was reported to it.
//!
//! Nothing but [`Reporter::report`] calls the callback: it stands in a private field, and what it
//! may be called with is known in here alone. And `report` calls it once: to it a boundary is a
//! value of a type of which it can neither copy nor make one, so that the call uses it up.

use vstd::prelude::*;

use crate::uax29::delivery;

verus! {

/// The callback may be called with each of `expected`. The definition is hidden outside of this
/// module, where it entitles to no call.
pub closed spec fn admits<X, Y, F: FnMut(X, Y) -> bool>(on_breakpoint: F, expected: Seq<(X, Y)>) -> bool {
    forall|i: int|
        0 <= i < expected.len() ==> call_requires(on_breakpoint, #[trigger] expected[i])
}

/// The callback may be called with each of `expected`, as one can say of it anywhere.
pub open spec fn accepts<X, Y, F: FnMut(X, Y) -> bool>(on_breakpoint: F, expected: Seq<(X, Y)>) -> bool {
    ||| admits(on_breakpoint, expected)
    ||| forall|i: int|
        0 <= i < expected.len() ==> call_requires(on_breakpoint, #[trigger] expected[i])
}

/// A callback that takes the boundaries of words, what there is to report to it, and the record
/// of its calls.
pub struct Reporter<X, Y, F> {
    on_breakpoint: F,
    expected: Ghost<Seq<(X, Y)>>,
    reports: Ghost<Seq<(X, Y)>>,
    replies: Ghost<Seq<bool>>,
}

impl<X, Y, F: FnMut(X, Y) -> bool> Reporter<X, Y, F> {
    /// The callback.
    pub closed spec fn callback(&self) -> F {
        self.on_breakpoint
    }

    /// What there is to report, in order.
    pub closed spec fn expected(&self) -> Seq<(X, Y)> {
        self.expected@
    }

    /// What was reported so far.
    pub closed spec fn reports(&self) -> Seq<(X, Y)> {
        self.reports@
    }

    /// What the callback answered.
    pub closed spec fn replies(&self) -> Seq<bool> {
        self.replies@
    }

    /// The first of what there is to report was reported, and nothing after a negative reply. Every
    /// reply is one that the callback gives to its report.
    pub open spec fn well_formed(&self) -> bool {
        &&& admits(self.callback(), self.expected())
        &&& self.reports().len() == self.replies().len()
        &&& self.reports().len() <= self.expected().len()
        &&& self.reports() == self.expected().take(self.reports().len() as int)
        &&& forall|i: int| 0 <= i < self.replies().len() - 1 ==> #[trigger] self.replies()[i]
        &&& forall|i: int|
            0 <= i < self.reports().len() ==> call_ensures(
                self.callback(),
                self.reports()[i],
                #[trigger] self.replies()[i],
            )
    }

    /// A callback that nothing was reported to yet.
    pub fn new(on_breakpoint: F, expected: Ghost<Seq<(X, Y)>>) -> (reporter: Self)
        requires
            accepts(on_breakpoint, expected@),
        ensures
            reporter.well_formed(),
            reporter.callback() == on_breakpoint,
            reporter.expected() == expected@,
            reporter.reports() == Seq::<(X, Y)>::empty(),
            reporter.replies() == Seq::<bool>::empty(),
    {
        assert(expected@.take(0) =~= Seq::<(X, Y)>::empty());
        Reporter {
            on_breakpoint,
            expected,
            reports: Ghost(Seq::empty()),
            replies: Ghost(Seq::empty()),
        }
    }

    /// Reports a boundary, with the properties of the token that ends there, and hands back the
    /// reply.
    ///
    /// Only the next of what there is to report can be reported, and nothing after a negative
    /// reply.
    pub fn report(&mut self, boundary: X, properties: Y) -> (go_on: bool)
        requires
            old(self).well_formed(),
            delivery::all_positive(old(self).replies()),
            old(self).reports().len() < old(self).expected().len(),
            old(self).expected()[old(self).reports().len() as int] == (boundary, properties),
        ensures
            final(self).well_formed(),
            final(self).callback() == old(self).callback(),
            final(self).expected() == old(self).expected(),
            final(self).reports() == old(self).reports().push((boundary, properties)),
            final(self).replies() == old(self).replies().push(go_on),
    {
        let ghost report = (boundary, properties);
        let go_on = (self.on_breakpoint)(boundary, properties);
        assert(self.expected@.take(self.reports@.len() as int + 1) =~= self.reports@.push(report));
        self.reports = Ghost(self.reports@.push(report));
        self.replies = Ghost(self.replies@.push(go_on));
        go_on
    }
}

} // verus!
