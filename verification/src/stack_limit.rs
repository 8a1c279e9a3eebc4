//! Where the engine's stack may end. The engine runs on whatever stack its
//! caller is on: that of the native thread, or that of a fiber.
use crate::text::{chars_of, lemma_run_len, lines, lines_of, run_len, views};
use vstd::prelude::*;

verus! {

broadcast use vstd::string::group_string_axioms;

/// What is left below the limit on a native stack.
pub const NATIVE_GUARD: usize = 131072;

/// What is left below the limit on a fiber's stack.
pub const FIBER_RESERVE: usize = 65536;

/// How far below the stack pointer the limit is kept.
pub const FIBER_HEADROOM: usize = 8192;

/// How far below the stack pointer the limit is put where nothing is known.
pub const BLIND_GUARD: usize = 65536;

/// Whether the stack pointer is on the native stack, which grows down from its
/// top to its bottom; a bottom of zero is unknown.
pub open spec fn on_native(sp: usize, native: (usize, usize)) -> bool {
    native.0 != 0 && sp > native.0 && sp <= native.1
}

/// Whether the stack pointer is on the native stack.
pub fn is_native(sp: usize, native: (usize, usize)) -> (r: bool)
    ensures
        r == on_native(sp, native),
{
    native.0 != 0 && sp > native.0 && sp <= native.1
}

/// A difference that stops at zero.
pub open spec fn below(a: usize, b: usize) -> usize {
    if a >= b {
        (a - b) as usize
    } else {
        0
    }
}

/// A limit, moved up to just above the bottom of the stack where it lies under
/// it and there is room.
pub open spec fn above_bottom(limit: int, bottom: usize, sp: usize) -> int {
    if limit <= bottom && bottom + 1 < sp {
        bottom + 1
    } else {
        limit
    }
}

/// The lowest address that the engine's stack may reach; zero leaves the
/// engine's own. `region` is the memory that a fiber's stack pointer lies in,
/// with a start of zero where that is unknown. On a stack that is nearly full
/// the limit comes close to its bottom, and stays above it.
pub open spec fn stack_limit(sp: usize, native: (usize, usize), region: (usize, usize)) -> int {
    let under = below(sp, FIBER_HEADROOM) as int;
    if on_native(sp, native) {
        let want = native.0 + NATIVE_GUARD;
        if want < sp {
            want
        } else {
            above_bottom(under, native.0, sp)
        }
    } else if region.0 != 0 {
        let want = region.0 + FIBER_RESERVE;
        above_bottom(
            if want <= under {
                want
            } else {
                under
            },
            region.0,
            sp,
        )
    } else {
        below(sp, BLIND_GUARD) as int
    }
}

/// The bottom of the stack that the stack pointer is on; zero where it is
/// unknown.
pub open spec fn stack_bottom(sp: usize, native: (usize, usize), region: (usize, usize)) -> usize {
    if on_native(sp, native) {
        native.0
    } else {
        region.0
    }
}

fn sub_to_zero(a: usize, b: usize) -> (r: usize)
    ensures
        r == below(a, b),
{
    if a >= b {
        a - b
    } else {
        0
    }
}

fn lift(limit: usize, bottom: usize, sp: usize) -> (r: usize)
    ensures
        r == above_bottom(limit as int, bottom, sp),
{
    if limit <= bottom && bottom < sp && sp - bottom > 1 {
        bottom + 1
    } else {
        limit
    }
}

/// The lowest address that the engine's stack may reach; `None` leaves the
/// engine's own.
pub fn v8_stack_limit(sp: usize, native: (usize, usize), region: (usize, usize)) -> (r: Option<
    usize,
>)
    ensures
        match r {
            Some(l) => l == stack_limit(sp, native, region) && l != 0,
            None => stack_limit(sp, native, region) == 0,
        },
        ({
            let bottom = stack_bottom(sp, native, region);
            bottom != 0 && bottom + 1 < sp ==> (r matches Some(l) && bottom < l < sp)
        }),
{
    let under: usize = sub_to_zero(sp, FIBER_HEADROOM);
    let limit: usize = if is_native(sp, native) {
        if sp - native.0 > NATIVE_GUARD {
            native.0 + NATIVE_GUARD
        } else {
            lift(under, native.0, sp)
        }
    } else if region.0 != 0 {
        if under >= region.0 && under - region.0 >= FIBER_RESERVE {
            lift(region.0 + FIBER_RESERVE, region.0, sp)
        } else {
            lift(under, region.0, sp)
        }
    } else {
        sub_to_zero(sp, BLIND_GUARD)
    };
    if limit == 0 {
        None
    } else {
        Some(limit)
    }
}

/// Whether the start of the engine's own stack scan is to be moved.
pub open spec fn scan_moves(sp: usize, native: (usize, usize), field: usize, top: usize) -> bool {
    !on_native(sp, native) && top != 0 && field != 0
}

/// On the native stack, and where an address is missing, the scan starts where the
/// engine has it start; on a fiber whose top is known it is moved.
pub proof fn law_scan_moves_only_on_fibers(
    sp: usize,
    native: (usize, usize),
    field: usize,
    top: usize,
)
    ensures
        native.0 != 0 && native.0 < sp <= native.1 ==> !scan_moves(sp, native, field, top),
        field == 0 || top == 0 ==> !scan_moves(sp, native, field, top),
        field != 0 && top != 0 && (native.0 == 0 || sp <= native.0 || sp > native.1) ==> scan_moves(
            sp,
            native,
            field,
            top,
        ),
{
}

/// Whether the start of the engine's own stack scan is to be moved: only on a
/// fiber, and only where both addresses are known.
pub fn moves_scan_start(sp: usize, native: (usize, usize), field: usize, top: usize) -> (r: bool)
    ensures
        r == scan_moves(sp, native, field, top),
{
    !is_native(sp, native) && top != 0 && field != 0
}

/// An address rounded down to a whole word.
pub open spec fn aligned(addr: int, word: int) -> int {
    addr - addr % word
}

/// The aligned address is a whole number of words, and the nearest such below.
pub proof fn law_alignment_goes_down_to_a_word(addr: int, word: int)
    requires
        word > 0,
        addr >= 0,
    ensures
        aligned(addr, word) % word == 0,
        0 <= aligned(addr, word) <= addr < aligned(addr, word) + word,
        addr % word == 0 ==> aligned(addr, word) == addr,
{
    vstd::arithmetic::div_mod::lemma_fundamental_div_mod(addr, word);
    vstd::arithmetic::div_mod::lemma_mod_bound(addr, word);
    vstd::arithmetic::div_mod::lemma_mod_decreases(addr as nat, word as nat);
    let q = addr / word;
    assert(aligned(addr, word) == word * q);
    vstd::arithmetic::div_mod::lemma_mod_multiples_basic(q, word);
    assert(word * q == q * word) by (nonlinear_arith);
}

/// An address rounded down to a whole word.
pub fn align_down(addr: usize, word: usize) -> (r: usize)
    requires
        word > 0,
    ensures
        r == aligned(addr as int, word as int),
{
    proof {
        vstd::arithmetic::div_mod::lemma_mod_decreases(addr as nat, word as nat);
    }
    addr - addr % word
}

/// Where the bottom of the stack is known, the limit lies between it and the
/// stack pointer, as long as there is an address between them: the engine sees
/// no overflow that is none, and does not run past the bottom.
pub proof fn law_limit_lies_on_the_stack(
    sp: usize,
    native: (usize, usize),
    region: (usize, usize),
)
    requires
        stack_bottom(sp, native, region) != 0,
        stack_bottom(sp, native, region) + 1 < sp,
    ensures
        stack_bottom(sp, native, region) < stack_limit(sp, native, region) < sp,
{
}

/// On a fiber, the limit lies under the stack pointer, whether or not its memory
/// is known.
pub proof fn law_fiber_limit_is_below_stack_pointer(
    sp: usize,
    native: (usize, usize),
    region: (usize, usize),
)
    requires
        !on_native(sp, native),
        sp > 0,
    ensures
        stack_limit(sp, native, region) < sp,
{
}

/// On a fiber with room to spare, the limit keeps the whole reserve above the
/// bottom of the fiber's memory.
pub proof fn law_fiber_limit_keeps_reserve(
    sp: usize,
    native: (usize, usize),
    region: (usize, usize),
)
    requires
        !on_native(sp, native),
        region.0 != 0,
        region.0 + FIBER_RESERVE + FIBER_HEADROOM <= sp,
    ensures
        stack_limit(sp, native, region) == region.0 + FIBER_RESERVE,
{
}

/// On the native stack the limit lies a fixed guard above its bottom, wherever
/// above it the stack pointer is.
pub proof fn law_native_limit_is_fixed(
    sp: usize,
    native: (usize, usize),
    region: (usize, usize),
)
    requires
        on_native(sp, native),
        native.0 + NATIVE_GUARD < sp,
    ensures
        stack_limit(sp, native, region) == native.0 + NATIVE_GUARD,
{
}

/// The value of a hexadecimal digit.
pub open spec fn digit_value(c: char) -> Option<nat> {
    let u = c as nat;
    if '0' as nat <= u <= '9' as nat {
        Some((u - '0' as nat) as nat)
    } else if 'a' as nat <= u <= 'f' as nat {
        Some((u - 'a' as nat + 10) as nat)
    } else if 'A' as nat <= u <= 'F' as nat {
        Some((u - 'A' as nat + 10) as nat)
    } else {
        None
    }
}

/// The value of hexadecimal digits, if all of them are.
pub open spec fn digits_value(s: Seq<char>) -> Option<nat>
    decreases s.len(),
{
    if s.len() == 0 {
        Some(0)
    } else {
        match (digits_value(s.drop_last()), digit_value(s.last())) {
            (Some(v), Some(d)) => Some(16 * v + d),
            _ => None,
        }
    }
}

/// An address in hexadecimal, as `usize::from_str_radix` reads it: at least one
/// digit, after a plus sign if there is one.
pub open spec fn address(s: Seq<char>) -> Option<nat> {
    let d = if s.len() > 0 && s[0] == '+' {
        s.skip(1)
    } else {
        s
    };
    if d.len() == 0 {
        None
    } else {
        match digits_value(d) {
            Some(v) => if v <= usize::MAX {
                Some(v)
            } else {
                None
            },
            None => None,
        }
    }
}

/// The parts before and after the first `c`.
pub open spec fn split_once(s: Seq<char>, c: char) -> Option<(Seq<char>, Seq<char>)> {
    let n = run_len(s, c);
    if n < s.len() {
        Some((s.take(n as int), s.skip(n as int + 1)))
    } else {
        None
    }
}

/// The bounds that a line of a memory map gives: two addresses with a hyphen
/// between them, before the first blank.
pub open spec fn line_bounds(line: Seq<char>) -> Option<(nat, nat)> {
    match split_once(line, ' ') {
        None => None,
        Some((range, _)) => match split_once(range, '-') {
            None => None,
            Some((lo, hi)) => match (address(lo), address(hi)) {
                (Some(l), Some(h)) => Some((l, h)),
                _ => None,
            },
        },
    }
}

/// The first of the given lines whose bounds hold an address, or zeros.
pub open spec fn region_in(l: Seq<Seq<char>>, addr: nat) -> (nat, nat)
    decreases l.len(),
{
    if l.len() == 0 {
        (0, 0)
    } else {
        match line_bounds(l[0]) {
            Some((lo, hi)) => if lo <= addr < hi {
                (lo, hi)
            } else {
                region_in(l.skip(1), addr)
            },
            None => region_in(l.skip(1), addr),
        }
    }
}

fn hex_digit_of(c: char) -> (r: Option<usize>)
    ensures
        match (r, digit_value(c)) {
            (Some(d), Some(want)) => d == want && d < 16,
            (None, None) => true,
            _ => false,
        },
{
    let u: u32 = c as u32;
    if 48 <= u && u <= 57 {
        Some((u - 48) as usize)
    } else if 97 <= u && u <= 102 {
        Some((u - 87) as usize)
    } else if 65 <= u && u <= 70 {
        Some((u - 55) as usize)
    } else {
        None
    }
}

proof fn lemma_bad_prefix(s: Seq<char>, n: int)
    requires
        0 <= n <= s.len(),
        digits_value(s.take(n)) is None,
    ensures
        digits_value(s) is None,
    decreases s.len() - n,
{
    if n < s.len() {
        assert(s.take(n + 1).drop_last() =~= s.take(n));
        lemma_bad_prefix(s, n + 1);
    } else {
        assert(s.take(n) =~= s);
    }
}

proof fn lemma_large_prefix(s: Seq<char>, n: int, bound: nat)
    requires
        0 <= n <= s.len(),
        digits_value(s.take(n)) matches Some(v) && v > bound,
    ensures
        digits_value(s) matches Some(v) ==> v > bound,
    decreases s.len() - n,
{
    if n < s.len() {
        let t = s.take(n + 1);
        assert(t.drop_last() =~= s.take(n));
        if digits_value(t) is None {
            lemma_bad_prefix(s, n + 1);
        } else {
            lemma_large_prefix(s, n + 1, bound);
        }
    } else {
        assert(s.take(n) =~= s);
    }
}

/// The address that a part of `cs` reads as.
fn parse_address(cs: &Vec<char>, from: usize, to: usize) -> (r: Option<usize>)
    requires
        from <= to <= cs@.len(),
    ensures
        match (r, address(cs@.subrange(from as int, to as int))) {
            (Some(v), Some(want)) => v == want,
            (None, None) => true,
            _ => false,
        },
{
    let ghost s = cs@.subrange(from as int, to as int);
    let start: usize = if from < to && cs[from] == '+' { from + 1 } else { from };
    let ghost d = cs@.subrange(start as int, to as int);
    assert(start > from ==> s.skip(1) =~= d);
    if start == to {
        return None;
    }
    let mut v: usize = 0;
    let mut i: usize = start;
    assert(d.take(0) =~= Seq::empty());
    while i < to
        invariant
            start <= i <= to <= cs@.len(),
            d == cs@.subrange(start as int, to as int),
            digits_value(d.take(i - start)) == Some(v as nat),
            address(s) == match digits_value(d) {
                Some(v) => if v <= usize::MAX {
                    Some(v)
                } else {
                    None
                },
                None => None,
            },
            s == cs@.subrange(from as int, to as int),
        decreases to - i,
    {
        let ghost n = i - start;
        let ghost t = d.take(n + 1);
        assert(t.drop_last() =~= d.take(n));
        assert(t.last() == cs@[i as int]);
        match hex_digit_of(cs[i]) {
            None => {
                proof {
                    lemma_bad_prefix(d, n + 1);
                }
                return None;
            },
            Some(x) => {
                if v > (usize::MAX - x) / 16 {
                    proof {
                        assert(16 * v + x > usize::MAX);
                        lemma_large_prefix(d, n + 1, usize::MAX as nat);
                    }
                    return None;
                }
                v = 16 * v + x;
            },
        }
        i = i + 1;
    }
    assert(d.take(d.len() as int) =~= d);
    Some(v)
}

/// Where `c` first stands in a part of `cs`.
fn find(cs: &Vec<char>, from: usize, to: usize, c: char) -> (r: Option<usize>)
    requires
        from <= to <= cs@.len(),
    ensures
        ({
            let s = cs@.subrange(from as int, to as int);
            match r {
                Some(i) => from <= i < to && run_len(s, c) == i - from,
                None => run_len(s, c) == s.len(),
            }
        }),
{
    let ghost s = cs@.subrange(from as int, to as int);
    let mut i: usize = from;
    while i < to
        invariant
            from <= i <= to <= cs@.len(),
            s == cs@.subrange(from as int, to as int),
            forall|k: int| 0 <= k < i - from ==> s[k] != c,
        decreases to - i,
    {
        if cs[i] == c {
            proof {
                lemma_run_len(s, c, i - from);
            }
            return Some(i);
        }
        i = i + 1;
    }
    proof {
        lemma_run_len(s, c, s.len() as int);
    }
    None
}

fn parse_line(line: &str) -> (r: Option<(usize, usize)>)
    ensures
        match (r, line_bounds(line@)) {
            (Some(b), Some(want)) => b.0 == want.0 && b.1 == want.1,
            (None, None) => true,
            _ => false,
        },
{
    let cs: Vec<char> = chars_of(line);
    assert(cs@.subrange(0, cs@.len() as int) =~= line@);
    let blank: usize = match find(&cs, 0, cs.len(), ' ') {
        Some(i) => i,
        None => {
            return None;
        },
    };
    let ghost range = line@.take(blank as int);
    assert(range =~= cs@.subrange(0, blank as int));
    let hyphen: usize = match find(&cs, 0, blank, '-') {
        Some(i) => i,
        None => {
            return None;
        },
    };
    assert(range.take(hyphen as int) =~= cs@.subrange(0, hyphen as int));
    assert(range.skip(hyphen as int + 1) =~= cs@.subrange(hyphen + 1, blank as int));
    let lo: Option<usize> = parse_address(&cs, 0, hyphen);
    let hi: Option<usize> = parse_address(&cs, hyphen + 1, blank);
    match (lo, hi) {
        (Some(l), Some(h)) => Some((l, h)),
        _ => None,
    }
}

/// The bounds of the mapping that an address lies in, by the text of a memory
/// map; zeros where there is none.
pub fn query_region_bounds(maps: &str, addr: usize) -> (r: (usize, usize))
    ensures
        (r.0 as nat, r.1 as nat) == region_in(lines(maps@), addr as nat),
{
    let all: Vec<String> = lines_of(maps);
    let ghost l = views(all@);
    let mut i: usize = 0;
    assert(l.skip(0) =~= l);
    while i < all.len()
        invariant
            i <= all@.len(),
            l == views(all@),
            l == lines(maps@),
            region_in(l, addr as nat) == region_in(l.skip(i as int), addr as nat),
        decreases all.len() - i,
    {
        assert(l.skip(i as int)[0] == all@[i as int]@);
        assert(l.skip(i as int).skip(1) =~= l.skip(i + 1));
        match parse_line(all[i].as_str()) {
            Some((lo, hi)) => {
                if addr >= lo && addr < hi {
                    return (lo, hi);
                }
            },
            None => {},
        }
        i = i + 1;
    }
    (0, 0)
}

/// The last known memory of a fiber. Reading the memory map is slow.
#[derive(Debug, Clone, Copy)]
pub struct RegionCache {
    pub bounds: (usize, usize),
}

/// The known memory, if an address lies in it.
pub open spec fn known_region(bounds: (usize, usize), addr: usize) -> Option<(usize, usize)> {
    if bounds.0 != 0 && bounds.0 <= addr < bounds.1 {
        Some(bounds)
    } else {
        None
    }
}

/// What is known once something was found.
pub open spec fn remembered(bounds: (usize, usize), found: (usize, usize)) -> (usize, usize) {
    if found.0 != 0 {
        found
    } else {
        bounds
    }
}

/// What was found last is what an address in it is answered with, and only such an
/// address is answered. Where nothing was found, what was known before stands.
pub proof fn law_region_is_remembered(bounds: (usize, usize), found: (usize, usize), addr: usize)
    ensures
        found.0 != 0 && found.0 <= addr < found.1 ==> known_region(
            remembered(bounds, found),
            addr,
        ) == Some(found),
        found.0 == 0 ==> known_region(remembered(bounds, found), addr) == known_region(
            bounds,
            addr,
        ),
        known_region(bounds, addr) matches Some(b) ==> b == bounds && b.0 <= addr < b.1 && b.0 != 0,
        found.0 != 0 && !(found.0 <= addr < found.1) ==> known_region(
            remembered(bounds, found),
            addr,
        ) is None,
{
}

impl RegionCache {
    /// Nothing is known.
    pub fn new() -> (r: RegionCache)
        ensures
            r.bounds == (0usize, 0usize),
    {
        RegionCache { bounds: (0, 0) }
    }

    /// The known memory, if the address lies in it.
    pub fn get(&self, addr: usize) -> (r: Option<(usize, usize)>)
        ensures
            r == known_region(self.bounds, addr),
    {
        if self.bounds.0 != 0 && addr >= self.bounds.0 && addr < self.bounds.1 {
            Some(self.bounds)
        } else {
            None
        }
    }

    /// Remembers what was found, unless nothing was.
    pub fn put(&mut self, bounds: (usize, usize))
        ensures
            final(self).bounds == remembered(old(self).bounds, bounds),
    {
        if bounds.0 != 0 {
            self.bounds = bounds;
        }
    }
}

/// What is to be done next to find where the engine keeps the start of its stack
/// scan.
#[derive(Debug, Clone, Copy, PartialEq, Eq, Structural)]
pub enum Probe {
    /// Give the address of the heap.
    Heap,
    /// Give the address of the stack object.
    Stack,
    /// Give the start of the native stack.
    NativeStart,
    /// Let the engine set the start, and read the first word of the object.
    SetAndRead,
    /// Overwrite that word, let the engine set the start again, and read it.
    OverwriteSetAndRead,
    /// The address of the word, or zero where it is not certain.
    Done(usize),
}

/// The search for where the engine keeps the start of its stack scan. A word is
/// overwritten only after it was seen to hold what the engine had just set.
#[derive(Debug, Clone, Copy)]
pub struct ScanProbe {
    pub probe: Probe,
    pub stack: usize,
    pub start: usize,
}

/// One step of the search.
pub open spec fn probe_step(p: ScanProbe, value: usize) -> ScanProbe {
    match p.probe {
        Probe::Heap => ScanProbe {
            probe: if value == 0 {
                Probe::Done(0)
            } else {
                Probe::Stack
            },
            ..p
        },
        Probe::Stack => ScanProbe {
            probe: if value == 0 {
                Probe::Done(0)
            } else {
                Probe::NativeStart
            },
            stack: value,
            ..p
        },
        Probe::NativeStart => ScanProbe {
            probe: if value == 0 {
                Probe::Done(0)
            } else {
                Probe::SetAndRead
            },
            start: value,
            ..p
        },
        Probe::SetAndRead => ScanProbe {
            probe: if value == p.start {
                Probe::OverwriteSetAndRead
            } else {
                Probe::Done(0)
            },
            ..p
        },
        Probe::OverwriteSetAndRead => ScanProbe {
            probe: Probe::Done(
                if value == p.start {
                    p.stack
                } else {
                    0
                },
            ),
            ..p
        },
        Probe::Done(_) => p,
    }
}

impl ScanProbe {
    /// The search begins with the heap.
    pub fn start() -> (r: ScanProbe)
        ensures
            r == (ScanProbe { probe: Probe::Heap, stack: 0, start: 0 }),
    {
        ScanProbe { probe: Probe::Heap, stack: 0, start: 0 }
    }

    /// Takes what was found.
    pub fn step(&mut self, value: usize)
        ensures
            *final(self) == probe_step(*old(self), value),
    {
        match self.probe {
            Probe::Heap => {
                self.probe = if value == 0 { Probe::Done(0) } else { Probe::Stack };
            },
            Probe::Stack => {
                self.stack = value;
                self.probe = if value == 0 { Probe::Done(0) } else { Probe::NativeStart };
            },
            Probe::NativeStart => {
                self.start = value;
                self.probe = if value == 0 { Probe::Done(0) } else { Probe::SetAndRead };
            },
            Probe::SetAndRead => {
                self.probe = if value == self.start {
                    Probe::OverwriteSetAndRead
                } else {
                    Probe::Done(0)
                };
            },
            Probe::OverwriteSetAndRead => {
                self.probe = if value == self.start {
                    Probe::Done(self.stack)
                } else {
                    Probe::Done(0)
                };
            },
            Probe::Done(_) => {},
        }
    }
}

/// A word is overwritten only after it was read to hold the start that the
/// engine had just set, and its address is given only after the engine has
/// restored it.
pub proof fn law_probe_is_careful(p: ScanProbe, value: usize)
    ensures
        probe_step(p, value).probe == Probe::OverwriteSetAndRead ==> p.probe == Probe::SetAndRead
            && value == p.start,
        probe_step(p, value).probe matches Probe::Done(a) ==> a == 0 || p.probe is Done || (p.probe
            == Probe::OverwriteSetAndRead && value == p.start && a == p.stack),
{
}

/// How many answers the probe can still need.
pub open spec fn probe_answers_left(p: Probe) -> nat {
    match p {
        Probe::Heap => 5,
        Probe::Stack => 4,
        Probe::NativeStart => 3,
        Probe::SetAndRead => 2,
        Probe::OverwriteSetAndRead => 1,
        Probe::Done(_) => 0,
    }
}

/// The probe ends after five answers at most.
pub proof fn law_probe_ends(p: ScanProbe, value: usize)
    requires
        !(p.probe is Done),
    ensures
        probe_answers_left(probe_step(p, value).probe) < probe_answers_left(p.probe),
{
}

/// Where neither the native stack nor the fiber's memory is known, the limit is a
/// fixed way under the stack pointer, or the engine's own where there is no such
/// way.
pub proof fn law_blind_limit_is_under_the_stack_pointer(
    sp: usize,
    native: (usize, usize),
    region: (usize, usize),
)
    requires
        !on_native(sp, native),
        region.0 == 0,
    ensures
        sp >= BLIND_GUARD ==> stack_limit(sp, native, region) == sp - BLIND_GUARD,
        sp < BLIND_GUARD ==> stack_limit(sp, native, region) == 0,
{
}

/// Where there is not room enough for the guard or the reserve, the limit keeps a
/// fixed headroom under the stack pointer, as long as that lies above the bottom.
pub proof fn law_tight_limit_keeps_headroom(
    sp: usize,
    native: (usize, usize),
    region: (usize, usize),
)
    requires
        stack_bottom(sp, native, region) != 0,
        sp > stack_bottom(sp, native, region) + FIBER_HEADROOM,
        if on_native(sp, native) {
            sp <= native.0 + NATIVE_GUARD
        } else {
            sp < region.0 + FIBER_RESERVE + FIBER_HEADROOM
        },
    ensures
        stack_limit(sp, native, region) == sp - FIBER_HEADROOM,
{
}

/// On the native stack what is known of a fiber's memory says nothing, and the
/// stack pointer is on it exactly above its bottom and up to its top.
pub proof fn law_native_stack_is_told_by_its_bounds(
    sp: usize,
    native: (usize, usize),
    region: (usize, usize),
    other: (usize, usize),
)
    ensures
        on_native(sp, native) <==> 0 < native.0 < sp <= native.1,
        on_native(sp, native) ==> stack_limit(sp, native, region) == stack_limit(
            sp,
            native,
            other,
        ) && stack_bottom(sp, native, region) == native.0,
        !on_native(sp, native) ==> stack_bottom(sp, native, region) == region.0,
{
}

/// A hexadecimal digit counts for its place in either case of letter, and one more
/// digit makes sixteen times as much and itself.
pub proof fn law_digits_are_read_in_turn(s: Seq<char>, c: char)
    ensures
        digits_value(s.push(c)) == match (digits_value(s), digit_value(c)) {
            (Some(v), Some(d)) => Some((16 * v + d) as nat),
            _ => None,
        },
        digit_value(c) matches Some(d) ==> d < 16,
        digit_value(c) is Some <==> '0' <= c <= '9' || 'a' <= c <= 'f' || 'A' <= c <= 'F',
        digit_value('0') == Some(0nat) && digit_value('9') == Some(9nat),
        digit_value('a') == Some(10nat) && digit_value('A') == Some(10nat),
        digit_value('f') == Some(15nat) && digit_value('F') == Some(15nat),
{
    assert(s.push(c).drop_last() =~= s);
}

/// An address is its digits, with or without a plus before them; without digits,
/// or with more than an address holds, it is none.
pub proof fn law_address_is_its_digits(d: Seq<char>)
    requires
        d.len() > 0,
        d[0] != '+',
    ensures
        address(d) == match digits_value(d) {
            Some(v) => if v <= usize::MAX {
                Some(v)
            } else {
                None
            },
            None => None,
        },
        address(seq!['+'] + d) == address(d),
        address(Seq::empty()) is None,
        address(seq!['+']) is None,
{
    assert((seq!['+'] + d).skip(1) =~= d);
    assert(seq!['+'].skip(1) =~= Seq::empty());
}

/// A line of a memory map gives its two addresses, whatever stands after the first
/// blank.
pub proof fn law_line_gives_its_bounds(lo: Seq<char>, hi: Seq<char>, rest: Seq<char>)
    requires
        !lo.contains(' ') && !lo.contains('-'),
        !hi.contains(' '),
    ensures
        line_bounds(lo + seq!['-'] + hi + seq![' '] + rest) == match (address(lo), address(hi)) {
            (Some(l), Some(h)) => Some((l, h)),
            _ => None,
        },
        line_bounds(lo + seq!['-'] + hi) is None,
{
    let range = lo + seq!['-'] + hi;
    let line = range + seq![' '] + rest;
    assert(line =~= lo + seq!['-'] + hi + seq![' '] + rest);
    assert forall|k: int| 0 <= k < lo.len() implies lo[k] != ' ' && lo[k] != '-' by {
        assert(lo.contains(lo[k]));
    }
    assert forall|k: int| 0 <= k < hi.len() implies hi[k] != ' ' by {
        assert(hi.contains(hi[k]));
    }
    assert forall|k: int| 0 <= k < range.len() implies range[k] != ' ' by {
        if k > lo.len() {
            assert(range[k] == hi[k - lo.len() - 1]);
        }
    }
    lemma_run_len(line, ' ', range.len() as int);
    assert(line.take(range.len() as int) =~= range);
    lemma_run_len(range, ' ', range.len() as int);
    lemma_run_len(range, '-', lo.len() as int);
    assert(range.take(lo.len() as int) =~= lo);
    assert(range.skip(lo.len() as int + 1) =~= hi);
}

/// Whether a line of a memory map is of a mapping that an address lies in.
pub open spec fn line_holds(line: Seq<char>, addr: nat) -> bool {
    match line_bounds(line) {
        Some((lo, hi)) => lo <= addr < hi,
        None => false,
    }
}

/// The mapping that is found holds the address, and is that of the first line that
/// does; where none is found no line does.
pub proof fn law_region_found_holds_the_address(l: Seq<Seq<char>>, addr: nat, k: int)
    requires
        0 <= k < l.len(),
    ensures
        ({
            let (lo, hi) = region_in(l, addr);
            &&& (lo, hi) != (0nat, 0nat) ==> lo <= addr < hi
            &&& (lo, hi) == (0nat, 0nat) ==> !line_holds(l[k], addr)
            &&& line_holds(l[k], addr) && (forall|j: int|
                0 <= j < k ==> !line_holds(#[trigger] l[j], addr)) ==> line_bounds(l[k]) == Some(
                (lo, hi),
            )
        }),
    decreases l.len(),
{
    let rest = l.skip(1);
    if !line_holds(l[0], addr) {
        if k > 0 {
            law_region_found_holds_the_address(rest, addr, k - 1);
            assert(rest[k - 1] == l[k]);
            if forall|j: int| 0 <= j < k ==> !line_holds(#[trigger] l[j], addr) {
                assert forall|j: int| 0 <= j < k - 1 implies !line_holds(
                    #[trigger] rest[j],
                    addr,
                ) by {
                    assert(rest[j] == l[j + 1]);
                }
            }
        } else if rest.len() > 0 {
            law_region_found_holds_the_address(rest, addr, 0);
        } else {
            assert(region_in(rest, addr) == (0nat, 0nat));
        }
    }
}

/// A search that meets no zero, and reads back the start that was set both times,
/// gives the address of the stack object; any other answer on the way gives none.
pub proof fn law_probe_finds_the_stack_object(
    heap: usize,
    stack: usize,
    start: usize,
    first: usize,
    second: usize,
)
    ensures
        ({
            let p = ScanProbe { probe: Probe::Heap, stack: 0, start: 0 };
            let end = probe_step(
                probe_step(probe_step(probe_step(probe_step(p, heap), stack), start), first),
                second,
            );
            end.probe == Probe::Done(
                if heap != 0 && stack != 0 && start != 0 && first == start && second == start {
                    stack
                } else {
                    0
                },
            )
        }),
{
}

} // verus!
