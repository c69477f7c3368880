use vstd::prelude::*;

use crate::text::{decimal, decimal_string, has_comma, is_whitespace, lemma_decimal};
use crate::trace::{
    format_line, lemma_format_then_parse, parse_line, plain_field, EventView, Operation,
    TraceEvent,
};

verus! {

/// One step of the linear congruential generator (Knuth's MMIX constants).
#[verifier::opaque]
pub open spec fn lcg_step(state: u64) -> u64 {
    ((state as nat * 6364136223846793005 + 1442695040888963407) % 0x1_0000_0000_0000_0000) as u64
}

/// Deterministic pseudo-random numbers.
#[derive(Debug, Clone)]
pub struct Lcg {
    state: u64,
}

impl Lcg {
    pub closed spec fn state(&self) -> u64 {
        self.state
    }

    pub fn new(seed: u64) -> (g: Self)
        ensures
            g.state() == seed,
    {
        Self { state: seed }
    }

    pub fn next(&mut self) -> (r: u64)
        ensures
            final(self).state() == lcg_step(old(self).state()),
            r == final(self).state(),
    {
        let s = self.state;
        let m = s.wrapping_mul(6364136223846793005);
        let n = m.wrapping_add(1442695040888963407);
        proof {
            reveal(lcg_step);
            let r: int = 0x1_0000_0000_0000_0000;
            let p = (s as nat * 6364136223846793005) % (r as nat);
            vstd::arithmetic::div_mod::lemma_add_mod_noop(
                s as int * 6364136223846793005,
                1442695040888963407,
                r,
            );
            vstd::arithmetic::div_mod::lemma_small_mod(1442695040888963407, r as nat);
            if p + 1442695040888963407 >= r {
                vstd::arithmetic::div_mod::lemma_mod_self_0(r);
                vstd::arithmetic::div_mod::lemma_small_mod(
                    (p + 1442695040888963407 - r) as nat,
                    r as nat,
                );
                vstd::arithmetic::div_mod::lemma_mod_sub_multiples_vanish(
                    (p + 1442695040888963407) as int,
                    r,
                );
            } else {
                vstd::arithmetic::div_mod::lemma_small_mod(
                    (p + 1442695040888963407) as nat,
                    r as nat,
                );
            }
        }
        self.state = n;
        n
    }

    /// A number below `upper`, or 0 without a step when `upper` is 0.
    pub fn range(&mut self, upper: u64) -> (r: u64)
        ensures
            upper == 0 ==> r == 0 && final(self).state() == old(self).state(),
            upper > 0 ==> final(self).state() == lcg_step(old(self).state()) && r == lcg_step(
                old(self).state(),
            ) % upper,
    {
        if upper == 0 {
            0
        } else {
            self.next() % upper
        }
    }
}

/// Object size for a roll below 10.
pub open spec fn size_for_roll(roll: u64) -> u64 {
    if roll == 0 {
        64
    } else if roll <= 2 {
        128
    } else if roll <= 4 {
        256
    } else if roll <= 6 {
        512
    } else if roll <= 8 {
        1024
    } else {
        4096
    }
}

/// Draws an object size: 64 to 4096 bytes, weighted toward the middle.
pub fn synthetic_size(rng: &mut Lcg) -> (size: u64)
    ensures
        final(rng).state() == lcg_step(old(rng).state()),
        size == size_for_roll(lcg_step(old(rng).state()) % 10),
{
    match rng.range(10) {
        0 => 64,
        1 | 2 => 128,
        3 | 4 => 256,
        5 | 6 => 512,
        7 | 8 => 1024,
        _ => 4096,
    }
}

/// Seed of the synthetic workload.
pub const TRACE_SEED: u64 = 0x5eed_1234_5678_9abc;

/// Key of the synthetic object with index `index`.
pub open spec fn synthetic_key(index: nat) -> Seq<char> {
    "synthetic:"@ + decimal(index)
}

pub fn synthetic_key_string(index: u64) -> (s: String)
    ensures
        s@ == synthetic_key(index as nat),
{
    let mut s = "synthetic:".to_owned();
    let digits = decimal_string(index);
    s.append(digits.as_str());
    s
}

/// The operation mix of a synthetic workload.
#[derive(Debug, Clone, Copy, PartialEq, Eq, Structural)]
pub enum Preset {
    /// Balanced reads, writes, updates and deletes.
    Mixed,
    /// Mostly repeated gets of stable objects.
    ReadHeavy,
    /// Mostly repeated updates.
    UpdateHeavy,
}

/// Roll thresholds (out of 100) of a preset: a known key is set below the first, read
/// below the second, updated below the third and deleted otherwise.
pub open spec fn mix(p: Preset) -> (u64, u64, u64) {
    match p {
        Preset::Mixed => (20, 70, 92),
        Preset::ReadHeavy => (5, 90, 97),
        Preset::UpdateHeavy => (5, 25, 95),
    }
}

impl Preset {
    pub fn mix(self) -> (r: (u64, u64, u64))
        ensures
            r == mix(self),
    {
        match self {
            Preset::Mixed => (20, 70, 92),
            Preset::ReadHeavy => (5, 90, 97),
            Preset::UpdateHeavy => (5, 25, 95),
        }
    }
}

/// The preset a `--preset` value names: `mixed` by default, `read-heavy` or
/// `update-heavy`.
pub open spec fn preset_named(v: Option<Seq<char>>) -> Result<Preset, Seq<char>> {
    match v {
        None => Ok(Preset::Mixed),
        Some(name) => if name == "mixed"@ {
            Ok(Preset::Mixed)
        } else if name == "read-heavy"@ {
            Ok(Preset::ReadHeavy)
        } else if name == "update-heavy"@ {
            Ok(Preset::UpdateHeavy)
        } else {
            Err("unknown preset: "@ + name)
        },
    }
}

pub fn parse_preset(name: &str) -> (r: Result<Preset, String>)
    ensures
        r matches Ok(p) ==> preset_named(Some(name@)) == Ok::<Preset, Seq<char>>(p),
        r matches Err(e) ==> preset_named(Some(name@)) == Err::<Preset, Seq<char>>(e@),
{
    let n = name.to_owned();
    if n == "mixed".to_owned() {
        Ok(Preset::Mixed)
    } else if n == "read-heavy".to_owned() {
        Ok(Preset::ReadHeavy)
    } else if n == "update-heavy".to_owned() {
        Ok(Preset::UpdateHeavy)
    } else {
        let mut msg = "unknown preset: ".to_owned();
        msg.append(name);
        Err(msg)
    }
}

/// The abstract state of the generator.
pub struct GeneratorState {
    pub preset: Preset,
    pub rng: u64,
    /// For each key index, whether the key currently holds a value.
    pub known: Seq<bool>,
}

/// Operation, key index and size of a generated request.
pub type Draw = (Operation, u64, u64);

/// The next request and generator state: a random key and a roll below 100; an unknown
/// key, or a roll below the preset's first threshold, is set with a random size; below
/// the second the key is read, below the third it is updated with a random size, and
/// otherwise it is deleted.
pub open spec fn generate_step(g: GeneratorState) -> (GeneratorState, Draw) {
    let key_count = g.known.len() as u64;
    let s1 = lcg_step(g.rng);
    let index = s1 % key_count;
    let s2 = lcg_step(s1);
    let roll = s2 % 100;
    let s3 = lcg_step(s2);
    let size = size_for_roll(s3 % 10);
    let (put_below, get_below, update_below) = mix(g.preset);
    if !g.known[index as int] || roll < put_below {
        (
            GeneratorState { rng: s3, known: g.known.update(index as int, true), ..g },
            (Operation::Put, index, size),
        )
    } else if roll < get_below {
        (GeneratorState { rng: s2, ..g }, (Operation::Get, index, 0))
    } else if roll < update_below {
        (GeneratorState { rng: s3, ..g }, (Operation::Update, index, size))
    } else {
        (
            GeneratorState { rng: s2, known: g.known.update(index as int, false), ..g },
            (Operation::Delete, index, 0),
        )
    }
}

/// Keys enter a synthetic trace through a set: a key that does not hold a value is
/// never read, updated or deleted, and afterwards it holds a value unless it was
/// deleted. Gets and deletes carry no size.
pub proof fn lemma_unknown_keys_are_set_first(g: GeneratorState)
    requires
        0 < g.known.len() <= u64::MAX,
    ensures
        generate_step(g).1.1 < g.known.len(),
        !g.known[generate_step(g).1.1 as int] ==> generate_step(g).1.0 == Operation::Put,
        generate_step(g).0.known == g.known.update(
            generate_step(g).1.1 as int,
            generate_step(g).1.0 != Operation::Delete,
        ),
        (generate_step(g).1.0 == Operation::Get || generate_step(g).1.0 == Operation::Delete)
            ==> generate_step(g).1.2 == 0,
{
    let index = lcg_step(g.rng) % (g.known.len() as u64);
    if g.known[index as int] {
        assert(g.known.update(index as int, true) =~= g.known);
    }
}

/// Synthetic keys are plain trace fields.
pub proof fn lemma_synthetic_key_is_plain(n: nat)
    ensures
        plain_field(synthetic_key(n)),
{
    reveal_strlit("synthetic:");
    let p = "synthetic:"@;
    let d = decimal(n);
    lemma_decimal(n);
    let k = p + d;
    assert(k[0] == p[0]);
    assert(k.last() == d.last());
    assert(!has_comma(p)) by {
        if has_comma(p) {
            let i = choose|i: int| 0 <= i < p.len() && p[i] == ',';
            assert(0 <= i < 10);
            if i == 0 {
            } else if i == 1 {
            } else if i == 2 {
            } else if i == 3 {
            } else if i == 4 {
            } else if i == 5 {
            } else if i == 6 {
            } else if i == 7 {
            } else if i == 8 {
            } else {
            }
        }
    }
    if has_comma(k) {
        let i = choose|i: int| 0 <= i < k.len() && k[i] == ',';
        if i < p.len() {
            assert(k[i] == p[i]);
            assert(has_comma(p));
        } else {
            assert(k[i] == d[i - p.len()]);
            assert(has_comma(d));
        }
    }
}

/// A generated request, written as a trace line, parses back to the same request.
pub proof fn lemma_generated_line_parses_back(timestamp: u64, draw: Draw)
    ensures
        parse_line(format_line((timestamp, draw.0, synthetic_key(draw.1 as nat), draw.2)))
            == Ok::<EventView, Seq<char>>((timestamp, draw.0, synthetic_key(draw.1 as nat), draw.2)),
{
    lemma_synthetic_key_is_plain(draw.1 as nat);
    lemma_format_then_parse((timestamp, draw.0, synthetic_key(draw.1 as nat), draw.2));
}

/// Produces the requests of a synthetic trace one by one.
#[derive(Debug, Clone)]
pub struct TraceGenerator {
    preset: Preset,
    rng: Lcg,
    known: Vec<bool>,
}

impl View for TraceGenerator {
    type V = GeneratorState;

    closed spec fn view(&self) -> GeneratorState {
        GeneratorState { preset: self.preset, rng: self.rng.state(), known: self.known@ }
    }
}

impl TraceGenerator {
    /// A generator over `keys` keys (at least one), none of them known yet.
    pub fn new(keys: u64, preset: Preset) -> (g: Self)
        requires
            keys <= usize::MAX,
        ensures
            g.wf(),
            g@.rng == TRACE_SEED,
            g@.preset == preset,
            g@.known == Seq::new(if keys == 0 { 1 } else { keys as nat }, |_i: int| false),
    {
        let key_count: u64 = if keys == 0 {
            1
        } else {
            keys
        };
        let mut known: Vec<bool> = Vec::new();
        let mut i: u64 = 0;
        while i < key_count
            invariant
                i <= key_count <= usize::MAX,
                known@ == Seq::new(i as nat, |_i: int| false),
            decreases key_count - i,
        {
            known.push(false);
            i += 1;
            assert(known@ =~= Seq::new(i as nat, |_i: int| false));
        }
        Self { preset, rng: Lcg::new(TRACE_SEED), known }
    }

    pub open spec fn wf(&self) -> bool {
        0 < self@.known.len() <= u64::MAX
    }

    /// The request at `timestamp`.
    pub fn next_event(&mut self, timestamp: u64) -> (e: TraceEvent)
        requires
            old(self).wf(),
        ensures
            final(self).wf(),
            final(self)@ == generate_step(old(self)@).0,
            e.timestamp == timestamp,
            e.op == generate_step(old(self)@).1.0,
            e.key@ == synthetic_key(generate_step(old(self)@).1.1 as nat),
            e.size == generate_step(old(self)@).1.2,
    {
        let key_count = self.known.len() as u64;
        let key_idx = self.rng.range(key_count);
        let key = synthetic_key_string(key_idx);
        let roll = self.rng.range(100);
        let known_key = self.known[key_idx as usize];
        let (put_below, get_below, update_below) = self.preset.mix();
        let (op, size) = if !known_key || roll < put_below {
            self.known.set(key_idx as usize, true);
            (Operation::Put, synthetic_size(&mut self.rng))
        } else if roll < get_below {
            (Operation::Get, 0)
        } else if roll < update_below {
            (Operation::Update, synthetic_size(&mut self.rng))
        } else {
            self.known.set(key_idx as usize, false);
            (Operation::Delete, 0)
        };
        TraceEvent { timestamp, op, key, size }
    }
}

} // verus!
