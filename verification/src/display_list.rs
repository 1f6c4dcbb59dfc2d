//! `DisplayList`: the ordered sequence of paint commands.

use vstd::prelude::*;

verus! {

/// A complete display list: its commands in paint order (back-to-front).
#[derive(Debug, Clone, PartialEq, Eq)]
pub struct DisplayList<C> {
    commands: Vec<C>,
}

/// `r` is `s` with `f` applied to each element: as long, and each element
/// of `r` is a result `f` may give for the element of `s` at its index.
pub open spec fn mapped_by<C, D, F: Fn(&C) -> D>(f: F, s: Seq<C>, r: Seq<D>) -> bool {
    &&& r.len() == s.len()
    &&& forall|i: int| 0 <= i < s.len() ==> f.ensures((&s[i],), #[trigger] r[i])
}

/// For a per-command function with one result per command, mapping a
/// concatenation of command lists gives the concatenation of the mapped
/// lists: scaling distributes over concatenation of display lists.
pub proof fn law_map_distributes_over_concat<C, D, F: Fn(&C) -> D>(
    f: F,
    a: Seq<C>,
    b: Seq<C>,
    ra: Seq<D>,
    rb: Seq<D>,
    rab: Seq<D>,
)
    requires
        forall|x: &C, y1: D, y2: D|
            #[trigger] f.ensures((x,), y1) && #[trigger] f.ensures((x,), y2) ==> y1 == y2,
        mapped_by(f, a, ra),
        mapped_by(f, b, rb),
        mapped_by(f, a + b, rab),
    ensures
        rab == ra + rb,
{
    assert forall|i: int| 0 <= i < rab.len() implies rab[i] == (ra + rb)[i] by {
        if i < a.len() {
            assert((a + b)[i] == a[i]);
            assert(f.ensures((&a[i],), ra[i]));
            assert(f.ensures((&a[i],), rab[i]));
        } else {
            assert((a + b)[i] == b[i - a.len()]);
            assert(f.ensures((&b[i - a.len()],), rb[i - a.len()]));
            assert(f.ensures((&b[i - a.len()],), rab[i]));
        }
    }
    assert(rab =~= ra + rb);
}

impl<C> View for DisplayList<C> {
    type V = Seq<C>;

    closed spec fn view(&self) -> Seq<C> {
        self.commands@
    }
}

impl<C> Default for DisplayList<C> {
    fn default() -> (r: Self)
        ensures
            r@ == Seq::<C>::empty(),
    {
        DisplayList { commands: Vec::new() }
    }
}

impl<C> DisplayList<C> {
    /// Build a display list from a command vector.
    pub fn new(commands: Vec<C>) -> (r: Self)
        ensures
            r@ == commands@,
    {
        DisplayList { commands }
    }

    /// An empty display list.
    pub fn empty() -> (r: Self)
        ensures
            r@ == Seq::<C>::empty(),
    {
        Self::default()
    }

    /// The commands in paint order (back-to-front).
    pub fn commands(&self) -> (r: &[C])
        ensures
            r@ == self@,
    {
        self.commands.as_slice()
    }

    /// Total command count.
    pub fn len(&self) -> (r: usize)
        ensures
            r == self@.len(),
    {
        self.commands.len()
    }

    /// Whether the list is empty.
    pub fn is_empty(&self) -> (r: bool)
        ensures
            r == (self@.len() == 0),
    {
        self.commands.len() == 0
    }

    /// A new display list whose commands are `f` applied to each command
    /// of this one, in the same order: what scaling a list by a factor is
    /// made of, one command at a time.
    pub fn map_commands<D, F: Fn(&C) -> D>(&self, f: F) -> (r: DisplayList<D>)
        requires
            forall|i: int| 0 <= i < self@.len() ==> f.requires((&self@[i],)),
        ensures
            mapped_by(f, self@, r@),
    {
        let mut out: Vec<D> = Vec::new();
        let mut i: usize = 0;
        let n = self.commands.len();
        while i < n
            invariant
                n == self@.len(),
                i <= n,
                out@.len() == i,
                forall|j: int| 0 <= j < self@.len() ==> f.requires((&self@[j],)),
                forall|j: int| 0 <= j < i ==> f.ensures((&self@[j],), #[trigger] out@[j]),
            decreases n - i,
        {
            let d = f(&self.commands[i]);
            out.push(d);
            i = i + 1;
        }
        DisplayList { commands: out }
    }
}

} // verus!
