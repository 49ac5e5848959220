use vstd::prelude::*;

use crate::symbols::MorseSymbol;

verus! {

/// A node of the translation tree. The path of dit and dah edges from the
/// root to a node is the Morse code of the node's character.
#[derive(Debug)]
pub struct TranslationLeaf {
    pub value: char,
    pub dit: Box<Option<TranslationLeaf>>,
    pub dah: Box<Option<TranslationLeaf>>,
}

impl Clone for TranslationLeaf {
    fn clone(&self) -> (r: Self)
        ensures
            r == *self,
        decreases self,
    {
        let dit = match &*self.dit {
            Some(d) => Some(d.clone()),
            None => None,
        };
        let dah = match &*self.dah {
            Some(d) => Some(d.clone()),
            None => None,
        };
        TranslationLeaf { value: self.value, dit: Box::new(dit), dah: Box::new(dah) }
    }
}

impl TranslationLeaf {
    /// Whether some node of this tree holds `c`.
    pub open spec fn contains(self, c: char) -> bool
        decreases self,
    {
        self.value == c || (match *self.dit {
            Some(d) => d.contains(c),
            None => false,
        }) || (match *self.dah {
            Some(d) => d.contains(c),
            None => false,
        })
    }

    /// The path to `c`, searching the dit side before the dah side.
    pub open spec fn path_to(self, c: char) -> Option<Seq<MorseSymbol>>
        decreases self,
    {
        if self.value == c {
            Some(Seq::empty())
        } else {
            let via_dit = match *self.dit {
                Some(d) => d.path_to(c),
                None => None,
            };
            let via_dah = match *self.dah {
                Some(d) => d.path_to(c),
                None => None,
            };
            match via_dit {
                Some(p) => Some(seq![MorseSymbol::Dit] + p),
                None => match via_dah {
                    Some(p) => Some(seq![MorseSymbol::Dah] + p),
                    None => None,
                },
            }
        }
    }

    /// The character at the end of `path`, if every step of it is a dit or a
    /// dah edge that exists.
    pub open spec fn walk(self, path: Seq<MorseSymbol>) -> Option<char>
        decreases path.len(),
    {
        if path.len() == 0 {
            Some(self.value)
        } else {
            match path[0] {
                MorseSymbol::Dit => match *self.dit {
                    Some(d) => d.walk(path.drop_first()),
                    None => None,
                },
                MorseSymbol::Dah => match *self.dah {
                    Some(d) => d.walk(path.drop_first()),
                    None => None,
                },
                _ => None,
            }
        }
    }

    /// The number of edges from the root to the deepest node.
    pub open spec fn height(self) -> nat
        decreases self,
    {
        let a = match *self.dit {
            Some(d) => d.height() + 1,
            None => 0,
        };
        let b = match *self.dah {
            Some(d) => d.height() + 1,
            None => 0,
        };
        if a >= b {
            a
        } else {
            b
        }
    }

    /// The length of the longest code in the tree.
    pub fn max_length(&self) -> (r: usize)
        requires
            self.height() <= usize::MAX,
        ensures
            r == self.height(),
        decreases self,
    {
        let dit: usize = match &*self.dit {
            Some(d) => d.max_length() + 1,
            None => 0,
        };
        let dah: usize = match &*self.dah {
            Some(d) => d.max_length() + 1,
            None => 0,
        };
        if dit >= dah {
            dit
        } else {
            dah
        }
    }

    /// The Morse code of `from`, or `None` where no node holds it.
    pub fn translate_into_symbols(&self, from: char) -> (r: Option<Vec<MorseSymbol>>)
        ensures
            r is Some <==> self.contains(from),
            match r {
                Some(v) => self.path_to(from) == Some(v@),
                None => self.path_to(from) is None,
            },
        decreases self,
    {
        proof {
            self.lemma_path_to_contains(from);
        }
        if from == self.value {
            return Some(Vec::new());
        }
        let via_dit = match &*self.dit {
            Some(d) => d.translate_into_symbols(from),
            None => None,
        };
        if let Some(mut into) = via_dit {
            let mut out = vec![MorseSymbol::Dit];
            out.append(&mut into);
            return Some(out);
        }
        let via_dah = match &*self.dah {
            Some(d) => d.translate_into_symbols(from),
            None => None,
        };
        if let Some(mut into) = via_dah {
            let mut out = vec![MorseSymbol::Dah];
            out.append(&mut into);
            return Some(out);
        }
        None
    }

    /// The character whose code is `from`, or `None` where `from` holds a
    /// boundary or leaves the tree.
    pub fn translate_from_symbols(&self, from: &[MorseSymbol]) -> (r: Option<char>)
        ensures
            r == self.walk(from@),
    {
        let mut node = self;
        let mut i: usize = 0;
        assert(from@.skip(0) =~= from@);
        while i < from.len()
            invariant
                i <= from@.len(),
                self.walk(from@) == node.walk(from@.skip(i as int)),
            decreases from@.len() - i,
        {
            proof {
                let rest = from@.skip(i as int);
                assert(rest.drop_first() =~= from@.skip(i + 1));
                assert(rest[0] == from@[i as int]);
            }
            match from[i] {
                MorseSymbol::Dit => match &*node.dit {
                    Some(d) => {
                        node = d;
                    },
                    None => {
                        return None;
                    },
                },
                MorseSymbol::Dah => match &*node.dah {
                    Some(d) => {
                        node = d;
                    },
                    None => {
                        return None;
                    },
                },
                _ => {
                    return None;
                },
            }
            i = i + 1;
        }
        Some(node.value)
    }

    /// The characters of the tree, root first, then the dit side, then the
    /// dah side.
    pub open spec fn values(self) -> Seq<char>
        decreases self,
    {
        let a = match *self.dit {
            Some(d) => d.values(),
            None => Seq::empty(),
        };
        let b = match *self.dah {
            Some(d) => d.values(),
            None => Seq::empty(),
        };
        seq![self.value] + a + b
    }

    fn collect_values(&self, out: &mut Vec<char>)
        ensures
            final(out)@ == old(out)@ + self.values(),
        decreases self,
    {
        out.push(self.value);
        match &*self.dit {
            Some(d) => d.collect_values(out),
            None => {},
        }
        match &*self.dah {
            Some(d) => d.collect_values(out),
            None => {},
        }
        assert(final(out)@ =~= old(out)@ + self.values());
    }

    /// Whether no character appears at two nodes, so that each has a single
    /// code.
    pub fn has_unique_values(&self) -> (r: bool)
        ensures
            r == self.values().no_duplicates(),
    {
        let mut all: Vec<char> = Vec::new();
        self.collect_values(&mut all);
        assert(all@ =~= self.values());
        let n = all.len();
        let mut i: usize = 0;
        while i < n
            invariant
                n == all@.len(),
                all@ == self.values(),
                i <= n,
                forall|a: int, b: int| 0 <= a < b < n && a < i ==> all@[a] != all@[b],
            decreases n - i,
        {
            let mut j: usize = i + 1;
            while j < n
                invariant
                    n == all@.len(),
                    all@ == self.values(),
                    i < n,
                    i < j <= n,
                    forall|a: int, b: int| 0 <= a < b < n && a < i ==> all@[a] != all@[b],
                    forall|b: int| i < b < j ==> all@[i as int] != all@[b],
                decreases n - j,
            {
                if all[i] == all[j] {
                    return false;
                }
                j = j + 1;
            }
            i = i + 1;
        }
        true
    }

    proof fn lemma_path_to_contains(self, c: char)
        ensures
            self.path_to(c) is Some <==> self.contains(c),
        decreases self,
    {
        match *self.dit {
            Some(d) => d.lemma_path_to_contains(c),
            None => {},
        }
        match *self.dah {
            Some(d) => d.lemma_path_to_contains(c),
            None => {},
        }
    }

    /// The code found for a character of the tree leads back to it.
    pub proof fn lemma_translate_inverse(self, c: char)
        requires
            self.contains(c),
        ensures
            self.path_to(c) is Some,
            self.walk(self.path_to(c)->0) == Some(c),
        decreases self,
    {
        self.lemma_path_to_contains(c);
        if self.value != c {
            let via_dit = match *self.dit {
                Some(d) => d.path_to(c),
                None => None,
            };
            match *self.dit {
                Some(d) => {
                    if d.contains(c) {
                        d.lemma_translate_inverse(c);
                        let p = seq![MorseSymbol::Dit] + d.path_to(c)->0;
                        assert(p.drop_first() =~= d.path_to(c)->0);
                    } else {
                        d.lemma_path_to_contains(c);
                    }
                },
                None => {},
            }
            if via_dit is None {
                match *self.dah {
                    Some(d) => {
                        d.lemma_translate_inverse(c);
                        let p = seq![MorseSymbol::Dah] + d.path_to(c)->0;
                        assert(p.drop_first() =~= d.path_to(c)->0);
                    },
                    None => {},
                }
            }
        }
    }
}

} // verus!
