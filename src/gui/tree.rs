use vstd::prelude::*;

use crate::symbols::MorseSymbol;

verus! {

/// What the tree view highlights: the code of the most recent character.
pub struct MorseTree {
    pub current_sequence: Vec<MorseSymbol>,
}

impl Default for MorseTree {
    fn default() -> (r: Self)
        ensures
            r.current_sequence@ == Seq::<MorseSymbol>::empty(),
    {
        MorseTree { current_sequence: Vec::new() }
    }
}

impl MorseTree {
    /// Whether the node at `path` lies on the highlighted code.
    pub open spec fn on_sequence(&self, path: Seq<MorseSymbol>) -> bool {
        self.current_sequence@.len() > 0 && path.is_prefix_of(self.current_sequence@)
    }

    /// Whether the node at `path` is highlighted, and if so the edge that the
    /// highlighted code takes out of it, if it goes on.
    pub fn highlight(&self, path: &[MorseSymbol]) -> (r: (bool, Option<MorseSymbol>))
        ensures
            r.0 == self.on_sequence(path@),
            r.1 == (if r.0 && path@.len() < self.current_sequence@.len() {
                Some(self.current_sequence@[path@.len() as int])
            } else {
                None
            }),
    {
        let cur: &Vec<MorseSymbol> = &self.current_sequence;
        if cur.len() == 0 || path.len() > cur.len() {
            return (false, None);
        }
        let mut i: usize = 0;
        while i < path.len()
            invariant
                cur@ == self.current_sequence@,
                path@.len() <= cur@.len(),
                i <= path@.len(),
                forall|k: int| 0 <= k < i ==> path@[k] == cur@[k],
            decreases path@.len() - i,
        {
            let a = path[i];
            let b = cur[i];
            if !(a == b) {
                assert(cur@.subrange(0, path@.len() as int)[i as int] != path@[i as int]);
                assert(path@ != cur@.subrange(0, path@.len() as int));
                return (false, None);
            }
            i = i + 1;
        }
        assert(cur@.subrange(0, path@.len() as int) =~= path@);
        if path.len() < cur.len() {
            (true, Some(cur[path.len()]))
        } else {
            (true, None)
        }
    }
}

} // verus!
