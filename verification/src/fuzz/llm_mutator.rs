//! Model-guided mutation support: a bounded first-in-first-out cache of
//! precomputed mutation variants, and the prompt that asks for them.
use vstd::prelude::*;
use crate::text::{push_all, push_str, string_of};

verus! {

/// Whether two byte strings are equal.
fn bytes_eq(a: &[u8], b: &[u8]) -> (r: bool)
    ensures
        r == (a@ == b@),
{
    if a.len() != b.len() {
        return false;
    }
    let mut i: usize = 0;
    while i < a.len()
        invariant
            a@.len() == b@.len(),
            i <= a@.len(),
            forall|j: int| 0 <= j < i ==> a@[j] == b@[j],
        decreases a@.len() - i,
    {
        if a[i] != b[i] {
            return false;
        }
        i = i + 1;
    }
    assert(a@ =~= b@);
    true
}

/// The byte strings of a list of variants.
pub open spec fn variant_views(v: Seq<Vec<u8>>) -> Seq<Seq<u8>> {
    v.map_values(|x: Vec<u8>| x@)
}

/// A bounded cache from inputs to precomputed mutation variants. When it is
/// full, inserting a new input evicts the input inserted longest ago.
pub struct MutationCache {
    entries: Vec<(Vec<u8>, Vec<Vec<u8>>)>,
    capacity: usize,
}

/// The inputs of a list of entries, in order.
pub open spec fn entry_keys(s: Seq<(Vec<u8>, Vec<Vec<u8>>)>) -> Seq<Seq<u8>> {
    s.map_values(|e: (Vec<u8>, Vec<Vec<u8>>)| e.0@)
}

impl MutationCache {
    /// The cached inputs, oldest first.
    pub closed spec fn keys(&self) -> Seq<Seq<u8>> {
        entry_keys(self.entries@)
    }

    /// The variants cached for each input.
    pub closed spec fn cached(&self) -> Map<Seq<u8>, Seq<Seq<u8>>> {
        Map::new(
            |k: Seq<u8>| self.keys().contains(k),
            |k: Seq<u8>|
                variant_views(
                    self.entries@[choose|i: int| 0 <= i < self.entries@.len() && self.entries@[i].0@ == k].1@,
                ),
        )
    }

    /// The capacity the cache was made with.
    pub closed spec fn capacity(&self) -> usize {
        self.capacity
    }

    /// Inputs are distinct, and there are never more than the capacity
    /// (or one, for a capacity of zero).
    pub closed spec fn wf(&self) -> bool {
        &&& forall|i: int, j: int|
            0 <= i < j < self.entries@.len() ==> self.entries@[i].0@ != self.entries@[j].0@
        &&& self.entries@.len() <= if self.capacity == 0 { 1 } else { self.capacity as int }
    }

    /// An empty cache holding at most `capacity` inputs.
    pub fn new(capacity: usize) -> (c: Self)
        ensures
            c.wf(),
            c.keys() == Seq::<Seq<u8>>::empty(),
            c.cached() == Map::<Seq<u8>, Seq<Seq<u8>>>::empty(),
            c.capacity() == capacity,
    {
        let c = MutationCache { entries: Vec::new(), capacity };
        assert(c.keys() =~= Seq::<Seq<u8>>::empty());
        assert(c.cached() =~= Map::<Seq<u8>, Seq<Seq<u8>>>::empty());
        c
    }

    /// Position of `input` among the entries.
    fn position(&self, input: &[u8]) -> (r: Option<usize>)
        ensures
            match r {
                Some(i) => i < self.entries@.len() && self.entries@[i as int].0@ == input@,
                None => !self.keys().contains(input@),
            },
    {
        let mut i: usize = 0;
        while i < self.entries.len()
            invariant
                i <= self.entries@.len(),
                forall|j: int| 0 <= j < i ==> self.entries@[j].0@ != input@,
            decreases self.entries@.len() - i,
        {
            if bytes_eq(self.entries[i].0.as_slice(), input) {
                return Some(i);
            }
            i = i + 1;
        }
        assert forall|j: int| 0 <= j < self.keys().len() implies self.keys()[j] != input@ by {
            assert(self.keys()[j] == self.entries@[j].0@);
        }
        None
    }

    /// The cached value at a position is the entry's variants.
    proof fn lemma_cached_at(&self, i: int)
        requires
            self.wf(),
            0 <= i < self.entries@.len(),
        ensures
            self.cached().contains_key(self.entries@[i].0@),
            self.cached()[self.entries@[i].0@] == variant_views(self.entries@[i].1@),
    {
        let k = self.entries@[i].0@;
        assert(self.keys()[i] == k);
        let j = choose|j: int| 0 <= j < self.entries@.len() && self.entries@[j].0@ == k;
        assert(j == i);
    }

    /// Caches `variants` for `input`. A new input, when the cache is full,
    /// first evicts the oldest input; an input already cached keeps its place
    /// and has its variants replaced.
    pub fn insert(&mut self, input: Vec<u8>, variants: Vec<Vec<u8>>)
        requires
            old(self).wf(),
        ensures
            final(self).wf(),
            final(self).capacity() == old(self).capacity(),
            final(self).cached().contains_key(input@),
            final(self).cached()[input@] == variant_views(variants@),
            old(self).keys().contains(input@) ==> final(self).keys() == old(self).keys(),
            !old(self).keys().contains(input@) && old(self).keys().len() >= old(self).capacity()
                && old(self).keys().len() > 0 ==> final(self).keys() == old(self).keys().drop_first().push(input@),
            !old(self).keys().contains(input@) && !(old(self).keys().len() >= old(self).capacity()
                && old(self).keys().len() > 0) ==> final(self).keys() == old(self).keys().push(input@),
            forall|k: Seq<u8>|
                k != input@ && #[trigger] final(self).cached().contains_key(k) ==> old(self).cached().contains_key(k)
                    && final(self).cached()[k] == old(self).cached()[k],
    {
        let ghost old_entries = self.entries@;
        let ghost vv = variant_views(variants@);
        match self.position(input.as_slice()) {
            Some(i) => {
                let mut entries = Vec::new();
                std::mem::swap(&mut entries, &mut self.entries);
                let (k, _) = entries.remove(i);
                entries.insert(i, (k, variants));
                self.entries = entries;
                proof {
                    assert(self.entries@ == old_entries.update(i as int, self.entries@[i as int]));
                    assert(self.keys() =~= old(self).keys());
                    self.lemma_cached_at(i as int);
                    assert forall|k: Seq<u8>|
                        k != input@ && #[trigger] self.cached().contains_key(k) implies old(self).cached().contains_key(k)
                            && self.cached()[k] == old(self).cached()[k] by {
                        let j = choose|j: int| 0 <= j < self.keys().len() && self.keys()[j] == k;
                        assert(self.entries@[j].0@ == k);
                        self.lemma_cached_at(j);
                        old(self).lemma_cached_at(j);
                    }
                }
            },
            None => {
                if self.entries.len() >= self.capacity && self.entries.len() > 0 {
                    self.entries.remove(0);
                    proof {
                        assert(self.entries@ == old_entries.subrange(1, old_entries.len() as int));
                    }
                }
                let ghost mid = self.entries@;
                self.entries.push((input, variants));
                proof {
                    let n = self.entries@.len() - 1;
                    assert(self.entries@[n].0@ == input@);
                    if old_entries.len() >= self.capacity && old_entries.len() > 0 {
                        assert(self.keys() =~= old(self).keys().drop_first().push(input@));
                    } else {
                        assert(mid == old_entries);
                        assert(self.keys() =~= old(self).keys().push(input@));
                    }
                    assert forall|a: int, b: int|
                        0 <= a < b < self.entries@.len() implies self.entries@[a].0@ != self.entries@[b].0@ by {
                        if b == n {
                            assert(mid[a] == self.entries@[a]);
                            assert(old(self).keys().contains(mid[a].0@)) by {
                                let a0 = if old_entries.len() == mid.len() { a } else { a + 1 };
                                assert(old_entries[a0] == mid[a]);
                                assert(old(self).keys()[a0] == mid[a].0@);
                            }
                        } else {
                            let a0 = if old_entries.len() == mid.len() { a } else { a + 1 };
                            let b0 = if old_entries.len() == mid.len() { b } else { b + 1 };
                            assert(old_entries[a0] == self.entries@[a]);
                            assert(old_entries[b0] == self.entries@[b]);
                        }
                    }
                    self.lemma_cached_at(n);
                    assert forall|k: Seq<u8>|
                        k != input@ && #[trigger] self.cached().contains_key(k) implies old(self).cached().contains_key(k)
                            && self.cached()[k] == old(self).cached()[k] by {
                        let j = choose|j: int| 0 <= j < self.keys().len() && self.keys()[j] == k;
                        assert(self.entries@[j].0@ == k);
                        assert(j != n);
                        let j0 = if old_entries.len() == mid.len() { j } else { j + 1 };
                        assert(old_entries[j0] == self.entries@[j]);
                        self.lemma_cached_at(j);
                        old(self).lemma_cached_at(j0);
                    }
                }
            },
        }
    }

    /// The variants cached for `input`, if any.
    pub fn get(&self, input: &[u8]) -> (r: Option<&Vec<Vec<u8>>>)
        requires
            self.wf(),
        ensures
            match r {
                Some(v) => self.cached().contains_key(input@) && self.cached()[input@]
                    == variant_views(v@),
                None => !self.cached().contains_key(input@),
            },
    {
        match self.position(input) {
            Some(i) => {
                proof {
                    self.lemma_cached_at(i as int);
                }
                Some(&self.entries[i].1)
            },
            None => None,
        }
    }
}

/// At most the capacity's worth of inputs (one, for a capacity of zero)
/// is ever cached.
pub proof fn law_cache_bounded(c: &MutationCache)
    requires
        c.wf(),
    ensures
        c.keys().len() <= if c.capacity() == 0 { 1 } else { c.capacity() as int },
        c.keys().len() == c.cached().len(),
{
    let s = c.keys();
    assert(c.cached().dom() =~= s.to_set());
    assert forall|i: int, j: int| 0 <= i < s.len() && 0 <= j < s.len() && i != j implies s[i] != s[j] by {
        if i < j {
            assert(s[i] == c.entries@[i].0@);
            assert(s[j] == c.entries@[j].0@);
        } else {
            assert(s[i] == c.entries@[i].0@);
            assert(s[j] == c.entries@[j].0@);
        }
    }
    assert(s.no_duplicates());
    s.unique_seq_to_set();
}

// ───────────────────────── prompt ─────────────────────────

/// A printable ASCII character or ASCII whitespace.
pub open spec fn is_text_byte(b: u8) -> bool {
    (0x21 <= b <= 0x7E) || b == 0x20 || b == 0x09 || b == 0x0A || b == 0x0C || b == 0x0D
}

/// Lower-case hexadecimal digit of `d` (`d < 16`).
pub open spec fn hex_digit(d: u8) -> char {
    if d < 10 {
        ((48 + d) as u32) as char
    } else {
        ((87 + d) as u32) as char
    }
}

/// The bytes as text, one character per byte.
pub open spec fn bytes_as_text(s: Seq<u8>) -> Seq<char> {
    s.map_values(|b: u8| (b as u32) as char)
}

/// The bytes as two-digit hexadecimal numbers separated by spaces.
pub open spec fn hex_listing(s: Seq<u8>) -> Seq<char>
    decreases s.len(),
{
    if s.len() == 0 {
        Seq::empty()
    } else if s.len() == 1 {
        seq![hex_digit(s[0] / 16), hex_digit(s[0] % 16)]
    } else {
        hex_listing(s.drop_last()) + seq![' ', hex_digit(s.last() / 16), hex_digit(s.last() % 16)]
    }
}

/// How the input is shown in the prompt: as text when every byte is printable
/// ASCII or ASCII whitespace, else as a hexadecimal listing.
pub open spec fn input_repr(s: Seq<u8>) -> Seq<char> {
    if forall|i: int| 0 <= i < s.len() ==> is_text_byte(#[trigger] s[i]) {
        bytes_as_text(s)
    } else {
        "hex: "@ + hex_listing(s)
    }
}

/// The prompt text for an input and a format hint.
pub open spec fn mutation_prompt(input: Seq<u8>, hint: Seq<char>) -> Seq<char> {
    "You are a fuzzer mutation engine for "@ + hint + " inputs.\nGenerate 5 semantically valid variants of this input that explore different code paths. Each variant should be syntactically valid "@
        + hint + ".\n\nInput:\n```\n"@ + input_repr(input)
        + "\n```\n\nRespond with each variant in a separate code block."@
}

/// Lower-case hexadecimal digit of `d`.
pub(crate) fn hex_digit_exec(d: u8) -> (c: char)
    requires
        d < 16,
    ensures
        c == hex_digit(d),
{
    if d < 10 {
        (48 + d) as char
    } else {
        (87 + d) as char
    }
}

/// Appends how the input is shown in the prompt (see [`input_repr`]).
fn push_input_repr(out: &mut Vec<char>, input: &[u8])
    ensures
        final(out)@ == old(out)@ + input_repr(input@),
{
    let mut text = true;
    let mut i: usize = 0;
    while i < input.len()
        invariant
            i <= input@.len(),
            text == forall|j: int| 0 <= j < i ==> is_text_byte(#[trigger] input@[j]),
        decreases input@.len() - i,
    {
        let b = input[i];
        if !((0x21 <= b && b <= 0x7E) || b == 0x20 || b == 0x09 || b == 0x0A || b == 0x0C || b == 0x0D) {
            text = false;
        }
        i = i + 1;
    }
    if text {
        let mut k: usize = 0;
        let ghost start = out@;
        while k < input.len()
            invariant
                k <= input@.len(),
                out@ == start + bytes_as_text(input@.take(k as int)),
            decreases input@.len() - k,
        {
            out.push(input[k] as char);
            assert(bytes_as_text(input@.take(k + 1)) =~= bytes_as_text(input@.take(k as int)).push(
                (input@[k as int] as u32) as char,
            ));
            k = k + 1;
        }
        assert(input@.take(input@.len() as int) =~= input@);
    } else {
        push_str(out, "hex: ");
        let ghost start = out@;
        let mut k: usize = 0;
        while k < input.len()
            invariant
                k <= input@.len(),
                out@ == start + hex_listing(input@.take(k as int)),
            decreases input@.len() - k,
        {
            let b = input[k];
            let ghost before = out@;
            if k > 0 {
                out.push(' ');
            }
            out.push(hex_digit_exec(b / 16));
            out.push(hex_digit_exec(b % 16));
            proof {
                assert(input@.take(k + 1).drop_last() =~= input@.take(k as int));
                if k == 0 {
                    assert(input@.take(1) =~= seq![b]);
                    assert(out@ =~= start + hex_listing(input@.take(k + 1)));
                } else {
                    assert(out@ =~= start + hex_listing(input@.take(k + 1)));
                }
            }
            k = k + 1;
        }
        assert(input@.take(input@.len() as int) =~= input@);
    }
}

/// The prompt asking a language model for variants of `input`, a
/// `format_hint` input: shown as text when every byte is printable ASCII or
/// ASCII whitespace, else as `hex: ` and the bytes in hexadecimal.
pub fn format_mutation_prompt(input: &[u8], format_hint: &str) -> (s: String)
    ensures
        s@ == mutation_prompt(input@, format_hint@),
{
    let mut out: Vec<char> = Vec::new();
    push_str(&mut out, "You are a fuzzer mutation engine for ");
    push_str(&mut out, format_hint);
    push_str(
        &mut out,
        " inputs.\nGenerate 5 semantically valid variants of this input that explore different code paths. Each variant should be syntactically valid ",
    );
    push_str(&mut out, format_hint);
    push_str(&mut out, ".\n\nInput:\n```\n");
    push_input_repr(&mut out, input);
    push_str(&mut out, "\n```\n\nRespond with each variant in a separate code block.");
    string_of(&out)
}

} // verus!
