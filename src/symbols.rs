use vstd::prelude::*;

verus! {

/// One element of a keyed Morse transmission.
#[derive(Clone, Copy, PartialEq, Eq, Debug, Structural)]
pub enum MorseSymbol {
    WordBoundary,
    CharacterBoundary,
    Dit,
    Dah,
}

/// Whether a symbol is a pulse (key down) rather than a gap.
pub open spec fn is_pulse(s: MorseSymbol) -> bool {
    s is Dit || s is Dah
}

/// Duration of a symbol, in dit units.
pub open spec fn units(s: MorseSymbol) -> nat {
    match s {
        MorseSymbol::WordBoundary => 7,
        MorseSymbol::CharacterBoundary => 3,
        MorseSymbol::Dah => 3,
        MorseSymbol::Dit => 1,
    }
}

impl From<&MorseSymbol> for bool {
    fn from(value: &MorseSymbol) -> bool {
        match value {
            MorseSymbol::WordBoundary | MorseSymbol::CharacterBoundary => false,
            MorseSymbol::Dit | MorseSymbol::Dah => true,
        }
    }
}

impl vstd::std_specs::convert::FromSpecImpl<&MorseSymbol> for bool {
    open spec fn obeys_from_spec() -> bool {
        true
    }

    open spec fn from_spec(v: &MorseSymbol) -> bool {
        is_pulse(*v)
    }
}

impl From<&MorseSymbol> for u8 {
    fn from(value: &MorseSymbol) -> u8 {
        match value {
            MorseSymbol::WordBoundary => 7,
            MorseSymbol::CharacterBoundary | MorseSymbol::Dah => 3,
            MorseSymbol::Dit => 1,
        }
    }
}

impl vstd::std_specs::convert::FromSpecImpl<&MorseSymbol> for u8 {
    open spec fn obeys_from_spec() -> bool {
        true
    }

    open spec fn from_spec(v: &MorseSymbol) -> u8 {
        units(*v) as u8
    }
}


/// The symbol that a maximal run of `n` equal pulses of value `v` stands for,
/// if any: a gap of a single unit is noise and stands for nothing.
pub open spec fn classify(v: bool, n: nat) -> Option<MorseSymbol> {
    if v {
        if n <= 2 {
            Some(MorseSymbol::Dit)
        } else {
            Some(MorseSymbol::Dah)
        }
    } else if n >= 5 {
        Some(MorseSymbol::WordBoundary)
    } else if n >= 2 {
        Some(MorseSymbol::CharacterBoundary)
    } else {
        None
    }
}

/// The value held by `o`, as a sequence of at most one element.
pub open spec fn opt_seq<T>(o: Option<T>) -> Seq<T> {
    match o {
        Some(x) => seq![x],
        None => Seq::empty(),
    }
}

/// Decoding of `rest`, given that a run of `k` values `v` has just been read
/// and continues until the first element of `rest` that differs from `v`.
pub open spec fn decode_run(rest: Seq<bool>, v: bool, k: nat) -> Seq<MorseSymbol>
    decreases rest.len(),
{
    if rest.len() == 0 {
        opt_seq(classify(v, k))
    } else if rest[0] == v {
        decode_run(rest.drop_first(), v, k + 1)
    } else {
        opt_seq(classify(v, k)) + decode_run(rest.drop_first(), rest[0], 1)
    }
}

/// The symbols that a pulse stream stands for: each maximal run classified in
/// turn, the end of the stream closing the last run.
pub open spec fn decode(bits: Seq<bool>) -> Seq<MorseSymbol> {
    if bits.len() == 0 {
        Seq::empty()
    } else {
        decode_run(bits.drop_first(), bits[0], 1)
    }
}

/// `n` copies of `v`.
pub open spec fn run(v: bool, n: nat) -> Seq<bool> {
    Seq::new(n, |_i: int| v)
}

/// The pulses for `syms`, where `after_pulse` says whether a pulse came just
/// before them: each symbol becomes a run of its duration, and a single gap
/// unit separates two adjacent pulses.
pub open spec fn encode_from(syms: Seq<MorseSymbol>, after_pulse: bool) -> Seq<bool>
    decreases syms.len(),
{
    if syms.len() == 0 {
        Seq::empty()
    } else {
        let s = syms[0];
        let sep = if after_pulse && is_pulse(s) {
            seq![false]
        } else {
            Seq::empty()
        };
        sep + run(is_pulse(s), units(s)) + encode_from(syms.drop_first(), is_pulse(s))
    }
}

/// The pulse stream for a symbol sequence.
pub open spec fn encode(syms: Seq<MorseSymbol>) -> Seq<bool> {
    encode_from(syms, false)
}

/// No two gap symbols stand next to each other.
pub open spec fn gaps_separated(syms: Seq<MorseSymbol>) -> bool {
    forall|i: int|
        0 <= i < syms.len() - 1 ==> is_pulse(#[trigger] syms[i]) || is_pulse(syms[i + 1])
}

/// Lazy decoder of a pulse stream into Morse symbols, one run at a time.
pub struct ToMorseIterator {
    inner: Vec<bool>,
    pos: usize,
}

impl ToMorseIterator {
    pub closed spec fn wf(&self) -> bool {
        self.pos <= self.inner@.len()
    }

    /// The symbols that are still to come.
    pub closed spec fn pending(&self) -> Seq<MorseSymbol> {
        decode(self.inner@.skip(self.pos as int))
    }

    /// The next symbol of the stream, if any; gap runs too short to be a
    /// boundary are passed over.
    pub fn next(&mut self) -> (r: Option<MorseSymbol>)
        requires
            old(self).wf(),
        ensures
            final(self).wf(),
            old(self).pending() == opt_seq(r) + final(self).pending(),
            r is None ==> final(self).pending() == Seq::<MorseSymbol>::empty(),
    {
        let len = self.inner.len();
        while self.pos < len
            invariant
                self.wf(),
                len == self.inner@.len(),
                old(self).inner@ == self.inner@,
                old(self).pending() == self.pending(),
            decreases len - self.pos,
        {
            let start = self.pos;
            let v = self.inner[start];
            let mut j: usize = start + 1;
            proof {
                let s = self.inner@.skip(start as int);
                assert(s.drop_first() =~= self.inner@.skip(j as int));
            }
            while j < len && self.inner[j] == v
                invariant
                    start < j <= len,
                    len == self.inner@.len(),
                    self.pos == start,
                    self.inner@[start as int] == v,
                    decode(self.inner@.skip(start as int)) == decode_run(
                        self.inner@.skip(j as int),
                        v,
                        (j - start) as nat,
                    ),
                decreases len - j,
            {
                proof {
                    let s = self.inner@.skip(j as int);
                    assert(s.drop_first() =~= self.inner@.skip(j + 1));
                }
                j = j + 1;
            }
            let k: usize = j - start;
            proof {
                let s = self.inner@.skip(j as int);
                if j < len {
                    assert(s.drop_first() =~= self.inner@.skip(j + 1));
                }
            }
            self.pos = j;
            let sym = if v {
                if k <= 2 {
                    Some(MorseSymbol::Dit)
                } else {
                    Some(MorseSymbol::Dah)
                }
            } else if k >= 5 {
                Some(MorseSymbol::WordBoundary)
            } else if k >= 2 {
                Some(MorseSymbol::CharacterBoundary)
            } else {
                None
            };
            if sym.is_some() {
                return sym;
            }
        }
        proof {
            assert(self.inner@.skip(self.pos as int).len() == 0);
        }
        None
    }

    /// All the symbols that are still to come.
    pub fn collect(self) -> (r: Vec<MorseSymbol>)
        requires
            self.wf(),
        ensures
            r@ == self.pending(),
    {
        let mut it = self;
        let mut out: Vec<MorseSymbol> = Vec::new();
        loop
            invariant
                it.wf(),
                self.pending() == out@ + it.pending(),
            decreases it.pending().len(),
        {
            match it.next() {
                Some(s) => {
                    out.push(s);
                },
                None => {
                    assert(out@ =~= self.pending());
                    return out;
                },
            }
        }
    }
}

/// A source of pulses that can be decoded into Morse symbols.
pub trait IntoMorseIterator: Sized {
    /// The pulses that this value holds, in order.
    spec fn pulses(&self) -> Seq<bool>;

    fn into_morse(self) -> (r: ToMorseIterator)
        ensures
            r.wf(),
            r.pending() == decode(self.pulses()),
    ;
}

impl IntoMorseIterator for Vec<bool> {
    open spec fn pulses(&self) -> Seq<bool> {
        self@
    }

    fn into_morse(self) -> (r: ToMorseIterator) {
        let r = ToMorseIterator { inner: self, pos: 0 };
        assert(r.inner@.skip(0) =~= self@);
        r
    }
}


/// Lazy encoder of Morse symbols into a pulse stream, one unit at a time.
pub struct ToBoolsIterator {
    inner: Vec<MorseSymbol>,
    pos: usize,
    state: bool,
    counter: u8,
}

impl ToBoolsIterator {
    pub closed spec fn wf(&self) -> bool {
        self.pos <= self.inner@.len() && self.counter <= 7
    }

    /// The pulses that are still to come.
    pub closed spec fn pending(&self) -> Seq<bool> {
        run(self.state, self.counter as nat) + encode_from(
            self.inner@.skip(self.pos as int),
            self.state,
        )
    }

    /// The next unit of the stream, if any.
    pub fn next(&mut self) -> (r: Option<bool>)
        requires
            old(self).wf(),
        ensures
            final(self).wf(),
            old(self).pending() == opt_seq(r) + final(self).pending(),
            r is None ==> final(self).pending() == Seq::<bool>::empty(),
    {
        if self.counter > 0 {
            self.counter = self.counter - 1;
            assert(old(self).pending() =~= seq![self.state] + self.pending());
            return Some(self.state);
        }
        if self.pos >= self.inner.len() {
            assert(self.pending() =~= Seq::<bool>::empty());
            return None;
        }
        let sym = self.inner[self.pos];
        proof {
            let s = self.inner@.skip(self.pos as int);
            assert(s.drop_first() =~= self.inner@.skip(self.pos + 1));
            assert(s[0] == sym);
        }
        self.pos = self.pos + 1;
        let old_state = self.state;
        self.state = bool::from(&sym);
        self.counter = u8::from(&sym);
        if old_state && self.state {
            assert(old(self).pending() =~= seq![false] + self.pending());
            return Some(false);
        }
        self.counter = self.counter - 1;
        assert(old(self).pending() =~= seq![self.state] + self.pending());
        Some(self.state)
    }

    /// All the pulses that are still to come.
    pub fn collect(self) -> (r: Vec<bool>)
        requires
            self.wf(),
        ensures
            r@ == self.pending(),
    {
        let mut it = self;
        let mut out: Vec<bool> = Vec::new();
        loop
            invariant
                it.wf(),
                self.pending() == out@ + it.pending(),
            decreases it.pending().len(),
        {
            match it.next() {
                Some(b) => {
                    out.push(b);
                },
                None => {
                    assert(out@ =~= self.pending());
                    return out;
                },
            }
        }
    }
}

/// A source of Morse symbols that can be encoded into pulses.
pub trait FromMorseIterator: Sized {
    /// The symbols that this value holds, in order.
    spec fn symbols(&self) -> Seq<MorseSymbol>;

    fn from_morse(self) -> (r: ToBoolsIterator)
        ensures
            r.wf(),
            r.pending() == encode(self.symbols()),
    ;
}

impl FromMorseIterator for Vec<MorseSymbol> {
    open spec fn symbols(&self) -> Seq<MorseSymbol> {
        self@
    }

    fn from_morse(self) -> (r: ToBoolsIterator) {
        let r = ToBoolsIterator { inner: self, pos: 0, state: false, counter: 0 };
        assert(r.inner@.skip(0) =~= self@);
        assert(r.pending() =~= encode(self@));
        r
    }
}


proof fn lemma_decode_run_prefix(v: bool, m: nat, b: Seq<bool>, k: nat)
    requires
        b.len() == 0 || b[0] != v,
    ensures
        decode_run(run(v, m) + b, v, k) == opt_seq(classify(v, k + m)) + decode(b),
    decreases m,
{
    let s = run(v, m) + b;
    if m == 0 {
        assert(s =~= b);
        if b.len() == 0 {
            assert(opt_seq(classify(v, k)) + decode(b) =~= opt_seq(classify(v, k)));
        }
    } else {
        assert(s[0] == v);
        assert(s.drop_first() =~= run(v, (m - 1) as nat) + b);
        lemma_decode_run_prefix(v, (m - 1) as nat, b, k + 1);
    }
}

/// Decoding a whole run followed by other values classifies that run first.
proof fn lemma_decode_block(v: bool, n: nat, b: Seq<bool>)
    requires
        n >= 1,
        b.len() == 0 || b[0] != v,
    ensures
        decode(run(v, n) + b) == opt_seq(classify(v, n)) + decode(b),
{
    let s = run(v, n) + b;
    assert(s[0] == v);
    assert(s.drop_first() =~= run(v, (n - 1) as nat) + b);
    lemma_decode_run_prefix(v, (n - 1) as nat, b, 1);
}

proof fn lemma_gaps_separated_concat(a: Seq<MorseSymbol>, b: Seq<MorseSymbol>)
    requires
        gaps_separated(a),
        gaps_separated(b),
        a.len() == 0 || b.len() == 0 || is_pulse(a.last()) || is_pulse(b[0]),
    ensures
        gaps_separated(a + b),
{
    let c = a + b;
    assert forall|i: int| 0 <= i < c.len() - 1 implies is_pulse(#[trigger] c[i]) || is_pulse(
        c[i + 1],
    ) by {
        if i < a.len() - 1 {
            assert(is_pulse(a[i]) || is_pulse(a[i + 1]));
        } else if i >= a.len() {
            assert(is_pulse(b[i - a.len()]) || is_pulse(b[i - a.len() + 1]));
        }
    }
}

proof fn lemma_decode_run_separated(rest: Seq<bool>, v: bool, k: nat)
    requires
        k >= 1,
    ensures
        gaps_separated(decode_run(rest, v, k)),
        v ==> decode_run(rest, v, k).len() > 0 && is_pulse(decode_run(rest, v, k)[0]),
    decreases rest.len(),
{
    if rest.len() == 0 {
    } else if rest[0] == v {
        lemma_decode_run_separated(rest.drop_first(), v, k + 1);
    } else {
        let d = decode_run(rest.drop_first(), rest[0], 1);
        lemma_decode_run_separated(rest.drop_first(), rest[0], 1);
        lemma_gaps_separated_concat(opt_seq(classify(v, k)), d);
        if v {
            assert((opt_seq(classify(v, k)) + d)[0] == opt_seq(classify(v, k))[0]);
        }
    }
}

/// Decoding never yields two gap symbols in a row.
pub proof fn lemma_decode_gaps_separated(bits: Seq<bool>)
    ensures
        gaps_separated(decode(bits)),
{
    if bits.len() > 0 {
        lemma_decode_run_separated(bits.drop_first(), bits[0], 1);
    }
}

/// Decoding the encoding of a symbol sequence in which no two gaps are
/// adjacent gives that sequence back.
pub proof fn lemma_decode_encode(syms: Seq<MorseSymbol>)
    requires
        gaps_separated(syms),
    ensures
        decode(encode(syms)) == syms,
{
    lemma_decode_encode_from(syms, false);
}

proof fn lemma_decode_encode_from(syms: Seq<MorseSymbol>, after_pulse: bool)
    requires
        gaps_separated(syms),
    ensures
        decode(encode_from(syms, after_pulse)) == syms,
    decreases syms.len(),
{
    if syms.len() > 0 {
        let s = syms[0];
        let p = is_pulse(s);
        let rest = syms.drop_first();
        assert(gaps_separated(rest)) by {
            assert forall|i: int| 0 <= i < rest.len() - 1 implies is_pulse(#[trigger] rest[i])
                || is_pulse(rest[i + 1]) by {
                assert(is_pulse(syms[i + 1]) || is_pulse(syms[i + 2]));
            }
        }
        let tail = encode_from(rest, p);
        lemma_decode_encode_from(rest, p);
        if rest.len() > 0 {
            let s1 = rest[0];
            assert(is_pulse(syms[0]) || is_pulse(syms[1]));
            let sep1 = if p && is_pulse(s1) {
                seq![false]
            } else {
                Seq::empty()
            };
            assert(tail == sep1 + run(is_pulse(s1), units(s1)) + encode_from(
                rest.drop_first(),
                is_pulse(s1),
            ));
            assert(tail[0] != p);
        }
        lemma_decode_block(p, units(s), tail);
        assert(opt_seq(classify(p, units(s))) =~= seq![s]);
        let body = run(p, units(s)) + tail;
        if after_pulse && p {
            assert(encode_from(syms, after_pulse) =~= run(false, 1) + body);
            assert(body[0] == true);
            lemma_decode_block(false, 1, body);
        } else {
            assert(encode_from(syms, after_pulse) =~= body);
        }
        assert(seq![s] + rest =~= syms);
    }
}

/// Re-encoding decoded symbols and decoding again yields the same symbols.
pub proof fn lemma_decode_reencode(bits: Seq<bool>)
    ensures
        decode(encode(decode(bits))) == decode(bits),
{
    lemma_decode_gaps_separated(bits);
    lemma_decode_encode(decode(bits));
}


/// The pulse symbol that a character of dotted text stands for, if any.
pub open spec fn mark(c: char) -> Seq<MorseSymbol> {
    if c == '.' {
        seq![MorseSymbol::Dit]
    } else if c == '-' {
        seq![MorseSymbol::Dah]
    } else {
        Seq::empty()
    }
}

/// The pulse symbols of a field of dotted text; other characters are dropped.
pub open spec fn marks(field: Seq<char>) -> Seq<MorseSymbol>
    decreases field.len(),
{
    if field.len() == 0 {
        Seq::empty()
    } else {
        marks(field.drop_last()) + mark(field.last())
    }
}

/// The symbols of one space-separated field: an empty field is a word
/// boundary, any other gives its pulses and then a character boundary.
pub open spec fn field_symbols(field: Seq<char>) -> Seq<MorseSymbol> {
    if field.len() == 0 {
        seq![MorseSymbol::WordBoundary]
    } else {
        marks(field) + seq![MorseSymbol::CharacterBoundary]
    }
}

/// The symbols of dotted text `rest`, where `field` is the part of the
/// current field that has been read already.
pub open spec fn dotted_from(rest: Seq<char>, field: Seq<char>) -> Seq<MorseSymbol>
    decreases rest.len(),
{
    if rest.len() == 0 {
        field_symbols(field)
    } else if rest[0] == ' ' {
        field_symbols(field) + dotted_from(rest.drop_first(), Seq::empty())
    } else {
        dotted_from(rest.drop_first(), field.push(rest[0]))
    }
}

/// The symbols of dotted text: the text split at each single space, each
/// field read by `field_symbols`.
pub open spec fn dotted(text: Seq<char>) -> Seq<MorseSymbol> {
    dotted_from(text, Seq::empty())
}

impl MorseSymbol {
    /// Reads text of `.` and `-` whose characters are separated by single
    /// spaces and whose words are separated by an empty field.
    pub fn from_dots_and_dashes(from: &str) -> (r: Vec<MorseSymbol>)
        ensures
            r@ == dotted(from@),
    {
        let n = from.unicode_len();
        let mut out: Vec<MorseSymbol> = Vec::new();
        let mut start: usize = 0;
        let mut i: usize = 0;
        let ghost done: Seq<MorseSymbol> = Seq::empty();
        assert(from@.skip(0) =~= from@);
        assert(from@.subrange(0, 0) =~= Seq::<char>::empty());
        while i < n
            invariant
                n == from@.len(),
                start <= i <= n,
                out@ == done + marks(from@.subrange(start as int, i as int)),
                dotted(from@) == done + dotted_from(
                    from@.skip(i as int),
                    from@.subrange(start as int, i as int),
                ),
            decreases n - i,
        {
            let c = from.get_char(i);
            let ghost field = from@.subrange(start as int, i as int);
            proof {
                let rest = from@.skip(i as int);
                assert(rest.drop_first() =~= from@.skip(i + 1));
                assert(rest[0] == c);
            }
            if c == ' ' {
                if start == i {
                    out.push(MorseSymbol::WordBoundary);
                } else {
                    out.push(MorseSymbol::CharacterBoundary);
                }
                proof {
                    assert(out@ =~= done + field_symbols(field));
                    done = done + field_symbols(field);
                    assert(dotted(from@) =~= done + dotted_from(
                        from@.skip(i + 1),
                        Seq::empty(),
                    ));
                    assert(from@.subrange(i + 1, i + 1) =~= Seq::<char>::empty());
                }
                start = i + 1;
            } else {
                if c == '.' {
                    out.push(MorseSymbol::Dit);
                } else if c == '-' {
                    out.push(MorseSymbol::Dah);
                }
                proof {
                    let f2 = from@.subrange(start as int, i + 1);
                    assert(f2.drop_last() =~= field);
                    assert(field.push(c) =~= f2);
                    assert(out@ =~= done + marks(f2));
                }
            }
            i = i + 1;
        }
        let ghost field = from@.subrange(start as int, i as int);
        if start == i {
            out.push(MorseSymbol::WordBoundary);
        } else {
            out.push(MorseSymbol::CharacterBoundary);
        }
        proof {
            assert(from@.skip(i as int).len() == 0);
            assert(out@ =~= done + field_symbols(field));
        }
        out
    }
}

} // verus!
