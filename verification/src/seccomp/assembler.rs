//! The BPF a seccomp program is made of, and an assembler whose jumps name
//! their destinations rather than count them.

use vstd::prelude::*;

verus! {

/// One BPF instruction, as the kernel's `sock_filter` lays it out.
#[derive(Clone, Copy, PartialEq, Eq, Debug)]
pub struct Instruction {
    pub code: u16,
    pub jt: u8,
    pub jf: u8,
    pub k: u32,
}

/// BPF_LD | BPF_W | BPF_ABS
pub const LD_W_ABS: u16 = 0x20;
/// BPF_JMP | BPF_JA
pub const JMP_JA: u16 = 0x05;
/// BPF_JMP | BPF_JEQ | BPF_K
pub const JMP_JEQ_K: u16 = 0x15;
/// BPF_JMP | BPF_JSET | BPF_K
pub const JMP_JSET_K: u16 = 0x45;
/// BPF_ALU | BPF_AND | BPF_K
pub const ALU_AND_K: u16 = 0x54;
/// BPF_RET | BPF_K
pub const RET_K: u16 = 0x06;

/// Offsets into `struct seccomp_data`: the syscall number, the architecture
/// token, and each 64-bit argument as two 32-bit halves. BPF loads 32 bits,
/// so a value smuggled in the upper word must be checked separately where it
/// would matter.
pub const OFFSET_NR: u32 = 0;
pub const OFFSET_ARCH: u32 = 4;

/// The offset of the low half of argument `index`.
pub fn arg_low(index: u32) -> (offset: u32)
    requires
        index < 6,
    ensures
        offset == 16 + index * 8,
{
    16 + index * 8
}

/// The offset of the high half of argument `index`.
pub fn arg_high(index: u32) -> (offset: u32)
    requires
        index < 6,
    ensures
        offset == 20 + index * 8,
{
    20 + index * 8
}

/// SECCOMP_RET_ALLOW
pub const ACTION_ALLOW: u32 = 0x7fff_0000;
/// SECCOMP_RET_KILL_PROCESS
pub const ACTION_KILL_PROCESS: u32 = 0x8000_0000;
/// SECCOMP_RET_ERRNO
pub const ACTION_ERRNO: u32 = 0x0005_0000;

/// Where a jump lands: the next instruction, one of the verdicts at the end
/// of the program, or a fixed number of instructions ahead.
#[derive(Clone, Copy, PartialEq, Eq, Debug)]
pub enum Target {
    Next,
    Verdict(Verdict),
    Ahead(u8),
}

/// How a program ends for one syscall.
#[derive(Clone, Copy, PartialEq, Eq, Debug)]
pub enum Verdict {
    Allow,
    Eperm,
    Enosys,
    Eafnosupport,
    Eprotonosupport,
    Kill,
}

/// The error numbers the refusals answer with, as this platform defines them.
#[derive(Clone, Copy, Debug)]
pub struct Errnos {
    pub eperm: u32,
    pub enosys: u32,
    pub eafnosupport: u32,
    pub eprotonosupport: u32,
}

impl Errnos {
    /// Error numbers fit below the errno action's own bits.
    pub open spec fn fit(self) -> bool {
        self.eperm < 0x1_0000 && self.enosys < 0x1_0000 && self.eafnosupport < 0x1_0000
            && self.eprotonosupport < 0x1_0000
    }
}

/// The action a verdict returns.
pub open spec fn verdict_action(verdict: Verdict, errnos: Errnos) -> u32 {
    match verdict {
        Verdict::Allow => ACTION_ALLOW,
        Verdict::Eperm => (ACTION_ERRNO + errnos.eperm) as u32,
        Verdict::Enosys => (ACTION_ERRNO + errnos.enosys) as u32,
        Verdict::Eafnosupport => (ACTION_ERRNO + errnos.eafnosupport) as u32,
        Verdict::Eprotonosupport => (ACTION_ERRNO + errnos.eprotonosupport) as u32,
        Verdict::Kill => ACTION_KILL_PROCESS,
    }
}

/// Where a verdict sits among the six at the end of a program.
pub open spec fn verdict_index(verdict: Verdict) -> int {
    match verdict {
        Verdict::Allow => 0,
        Verdict::Eperm => 1,
        Verdict::Enosys => 2,
        Verdict::Eafnosupport => 3,
        Verdict::Eprotonosupport => 4,
        Verdict::Kill => 5,
    }
}

/// The verdict at `index` among the six.
pub open spec fn verdict_at(index: int) -> Verdict {
    if index == 0 { Verdict::Allow } else if index == 1 { Verdict::Eperm } else if index == 2 { Verdict::Enosys }
    else if index == 3 { Verdict::Eafnosupport } else if index == 4 { Verdict::Eprotonosupport } else { Verdict::Kill }
}

impl Verdict {
    /// The action this verdict returns: allow, an errno, or kill.
    pub fn action(self, errnos: &Errnos) -> (action: u32)
        requires
            errnos.fit(),
        ensures
            action == verdict_action(self, *errnos),
    {
        match self {
            Verdict::Allow => ACTION_ALLOW,
            Verdict::Eperm => ACTION_ERRNO + errnos.eperm,
            Verdict::Enosys => ACTION_ERRNO + errnos.enosys,
            Verdict::Eafnosupport => ACTION_ERRNO + errnos.eafnosupport,
            Verdict::Eprotonosupport => ACTION_ERRNO + errnos.eprotonosupport,
            Verdict::Kill => ACTION_KILL_PROCESS,
        }
    }

    /// Where this verdict sits among the six at the end of a program.
    pub fn index(self) -> (index: usize)
        ensures
            index == verdict_index(self),
    {
        match self {
            Verdict::Allow => 0,
            Verdict::Eperm => 1,
            Verdict::Enosys => 2,
            Verdict::Eafnosupport => 3,
            Verdict::Eprotonosupport => 4,
            Verdict::Kill => 5,
        }
    }
}

/// One instruction before the program is finished: its jumps still name
/// their destinations.
#[derive(Clone, Copy, Debug)]
pub struct Pending {
    pub code: u16,
    pub k: u32,
    pub when_true: Target,
    pub when_false: Target,
}

/// Where a jump to `target` from `index` lands, in a program whose verdicts
/// start at `first_verdict`.
pub open spec fn landing(target: Target, index: int, first_verdict: int) -> int {
    match target {
        Target::Next => index + 1,
        Target::Ahead(count) => index + 1 + count,
        Target::Verdict(verdict) => first_verdict + verdict_index(verdict),
    }
}

/// The distance a jump to `target` from `index` covers.
pub open spec fn distance(target: Target, index: int, first_verdict: int) -> int {
    landing(target, index, first_verdict) - index - 1
}

/// A jump to `target` from `index` that names a fixed distance ahead stays
/// before `bound`.
pub open spec fn ahead_within(target: Target, index: int, bound: int) -> bool {
    match target {
        Target::Ahead(count) => index + 1 + count < bound,
        _ => true,
    }
}

/// Every fixed-distance jump in `pending` lands before `bound`.
pub open spec fn aheads_within(pending: Seq<Pending>, bound: int) -> bool {
    forall|i: int| 0 <= i < pending.len() ==> ahead_within(#[trigger] pending[i].when_true, i, bound)
        && ahead_within(pending[i].when_false, i, bound)
}

/// Every verdict a jump in `pending` names is within the 255 instructions a
/// BPF jump can cover, once the six verdicts follow the instructions.
pub open spec fn verdicts_in_range(pending: Seq<Pending>) -> bool {
    pending.len() + 6 <= 255
}

/// The finished form of one pending instruction at `index`.
pub open spec fn resolved(p: Pending, index: int, first_verdict: int) -> Instruction {
    if p.code == JMP_JA {
        Instruction { code: p.code, jt: 0, jf: 0, k: distance(p.when_true, index, first_verdict) as u32 }
    } else {
        Instruction {
            code: p.code,
            jt: distance(p.when_true, index, first_verdict) as u8,
            jf: distance(p.when_false, index, first_verdict) as u8,
            k: p.k,
        }
    }
}

/// Whether `code` is one of the jumps.
pub open spec fn is_jump(code: u16) -> bool {
    code == JMP_JA || code == JMP_JEQ_K || code == JMP_JSET_K
}

/// Every jump of `program` lands inside it: past a jump there is always an
/// instruction to go to.
pub open spec fn jumps_land_inside(program: Seq<Instruction>) -> bool {
    forall|i: int| 0 <= i < program.len() ==> {
        let ins = #[trigger] program[i];
        &&& ins.code == JMP_JA ==> i + 1 + ins.k < program.len()
        &&& (ins.code == JMP_JEQ_K || ins.code == JMP_JSET_K) ==> i + 1 + ins.jt < program.len() && i + 1 + ins.jf < program.len()
    }
}

/// One equality check per number, each going to `verdict` on a match and on
/// to the next otherwise.
pub open spec fn refuse_ops(numbers: Seq<u32>, verdict: Verdict) -> Seq<Pending> {
    Seq::new(numbers.len(), |j: int| Pending { code: JMP_JEQ_K, k: numbers[j], when_true: Target::Verdict(verdict), when_false: Target::Next })
}

/// A block that runs `body` only for syscall `number`: the guard, the body,
/// and the reload of the syscall number that a skipped block lands on.
pub open spec fn guarded(number: u32, body: Seq<Pending>) -> Seq<Pending> {
    seq![Pending { code: JMP_JEQ_K, k: number, when_true: Target::Next, when_false: Target::Ahead(body.len() as u8) }]
        + body + seq![Pending { code: LD_W_ABS, k: OFFSET_NR, when_true: Target::Next, when_false: Target::Next }]
}

/// Every fixed-distance jump of `segment` lands inside it.
pub open spec fn aheads_local(segment: Seq<Pending>) -> bool {
    aheads_within(segment, segment.len() as int)
}

/// Two segments whose fixed-distance jumps each land inside themselves keep
/// that property side by side.
pub proof fn lemma_aheads_concat(a: Seq<Pending>, b: Seq<Pending>)
    requires
        aheads_local(a),
        aheads_local(b),
    ensures
        aheads_local(a + b),
{
    let c = a + b;
    assert forall|i: int| 0 <= i < c.len() implies ahead_within(#[trigger] c[i].when_true, i, c.len() as int)
        && ahead_within(c[i].when_false, i, c.len() as int) by {
        if i < a.len() {
            assert(c[i] == a[i]);
            assert(ahead_within(a[i].when_true, i, a.len() as int));
            assert(ahead_within(a[i].when_false, i, a.len() as int));
        } else {
            let j = i - a.len();
            assert(c[i] == b[j]);
            assert(ahead_within(b[j].when_true, j, b.len() as int));
            assert(ahead_within(b[j].when_false, j, b.len() as int));
        }
    }
}

/// A guarded block keeps its jumps inside itself when its body does.
pub proof fn lemma_aheads_guarded(number: u32, body: Seq<Pending>)
    requires
        aheads_local(body),
        body.len() <= 255,
    ensures
        aheads_local(guarded(number, body)),
{
    let g = guarded(number, body);
    assert forall|i: int| 0 <= i < g.len() implies ahead_within(#[trigger] g[i].when_true, i, g.len() as int)
        && ahead_within(g[i].when_false, i, g.len() as int) by {
        if i == 0 {
        } else if i <= body.len() {
            assert(g[i] == body[i - 1]);
            assert(ahead_within(body[i - 1].when_true, i - 1, body.len() as int));
            assert(ahead_within(body[i - 1].when_false, i - 1, body.len() as int));
        } else {
        }
    }
}

/// A run of refusals jumps only to verdicts.
pub proof fn lemma_aheads_refuse(numbers: Seq<u32>, verdict: Verdict)
    ensures
        aheads_local(refuse_ops(numbers, verdict)),
{
}

/// Builds a program whose jumps name their destinations; the distances are
/// measured when the program is finished, so they cannot disagree with the
/// layout.
pub struct Assembler {
    pub pending: Vec<Pending>,
}

impl Assembler {
    /// The instructions emitted so far.
    pub open spec fn ops(&self) -> Seq<Pending> {
        self.pending@
    }

    /// An assembler with nothing emitted.
    pub fn new() -> (assembler: Self)
        ensures
            assembler.ops() == Seq::<Pending>::empty(),
    {
        Assembler { pending: Vec::new() }
    }

    /// The number of instructions emitted so far.
    pub fn len(&self) -> (n: usize)
        ensures
            n == self.ops().len(),
    {
        self.pending.len()
    }

    /// One instruction, and where it jumps when true and when false.
    pub fn emit(&mut self, code: u16, k: u32, jumps: (Target, Target))
        ensures
            final(self).ops() == old(self).ops().push(Pending { code, k, when_true: jumps.0, when_false: jumps.1 }),
    {
        self.pending.push(Pending { code, k, when_true: jumps.0, when_false: jumps.1 });
    }

    /// Load the 32-bit word at `offset` of the syscall's data.
    pub fn load(&mut self, offset: u32)
        ensures
            final(self).ops() == old(self).ops().push(Pending { code: LD_W_ABS, k: offset, when_true: Target::Next, when_false: Target::Next }),
    {
        self.emit(LD_W_ABS, offset, (Target::Next, Target::Next));
    }

    /// Keep only `bits` of the accumulator.
    pub fn mask(&mut self, bits: u32)
        ensures
            final(self).ops() == old(self).ops().push(Pending { code: ALU_AND_K, k: bits, when_true: Target::Next, when_false: Target::Next }),
    {
        self.emit(ALU_AND_K, bits, (Target::Next, Target::Next));
    }

    /// If the accumulator equals `value`, go to `when_true`; when_false `when_false`.
    pub fn if_equal(&mut self, value: u32, when_true: Target, when_false: Target)
        ensures
            final(self).ops() == old(self).ops().push(Pending { code: JMP_JEQ_K, k: value, when_true, when_false }),
    {
        self.emit(JMP_JEQ_K, value, (when_true, when_false));
    }

    /// If the accumulator has any of `bits` set, go to `when_true`; when_false `when_false`.
    pub fn if_any(&mut self, bits: u32, when_true: Target, when_false: Target)
        ensures
            final(self).ops() == old(self).ops().push(Pending { code: JMP_JSET_K, k: bits, when_true, when_false }),
    {
        self.emit(JMP_JSET_K, bits, (when_true, when_false));
    }

    /// Go to `target` unconditionally.
    pub fn jump(&mut self, target: Target)
        ensures
            final(self).ops() == old(self).ops().push(Pending { code: JMP_JA, k: 0, when_true: target, when_false: target }),
    {
        // JA carries its distance in k; the verdict is resolved like the others.
        self.emit(JMP_JA, 0, (target, target));
    }

    /// Refuse every syscall in `numbers` with `verdict`. The accumulator must
    /// hold the syscall number.
    pub fn refuse_each(&mut self, numbers: &[u32], verdict: Verdict)
        ensures
            final(self).ops() == old(self).ops() + refuse_ops(numbers@, verdict),
            final(self).ops().len() == old(self).ops().len() + numbers@.len(),
            final(self).ops().subrange(0, old(self).ops().len() as int) == old(self).ops(),
            forall|j: int| 0 <= j < numbers@.len() ==> #[trigger] final(self).ops()[old(self).ops().len() + j]
                == (Pending { code: JMP_JEQ_K, k: numbers@[j], when_true: Target::Verdict(verdict), when_false: Target::Next }),
    {
        let ghost start = self.ops();
        let mut i: usize = 0;
        while i < numbers.len()
            invariant
                i <= numbers@.len(),
                self.ops().len() == start.len() + i,
                self.ops().subrange(0, start.len() as int) == start,
                forall|j: int| 0 <= j < i ==> #[trigger] self.ops()[start.len() + j]
                    == (Pending { code: JMP_JEQ_K, k: numbers@[j], when_true: Target::Verdict(verdict), when_false: Target::Next }),
            decreases numbers.len() - i,
        {
            self.if_equal(numbers[i], Target::Verdict(verdict), Target::Next);
            i = i + 1;
            assert(self.ops().subrange(0, start.len() as int) =~= start);
        }
        let ghost expected = start + refuse_ops(numbers@, verdict);
        assert forall|i: int| 0 <= i < expected.len() implies #[trigger] self.ops()[i] == expected[i] by {
            if i < start.len() {
                assert(self.ops().subrange(0, start.len() as int)[i] == start[i]);
            } else {
                let j = i - start.len();
                assert(self.ops()[start.len() + j] == refuse_ops(numbers@, verdict)[j]);
            }
        }
        assert(self.ops() =~= expected);
    }

    /// Open a block that runs only for syscall `number`; the accumulator holds
    /// the number before and after. Returns where the block's guard is, for
    /// [`Assembler::end_syscall`], which the block must end with, after a
    /// jump to a verdict.
    pub fn begin_syscall(&mut self, number: u32) -> (guard: usize)
        ensures
            guard == old(self).ops().len(),
            final(self).ops() == old(self).ops().push(Pending { code: JMP_JEQ_K, k: number, when_true: Target::Next, when_false: Target::Next }),
    {
        let guard = self.pending.len();
        self.emit(JMP_JEQ_K, number, (Target::Next, Target::Next));
        guard
    }

    /// Close the block opened at `guard`: reload the syscall number, which is
    /// where a skipped block lands, and point the guard's false branch there.
    pub fn end_syscall(&mut self, guard: usize)
        requires
            guard < old(self).ops().len(),
            old(self).ops().len() - guard - 1 <= 255,
        ensures
            final(self).ops().len() == old(self).ops().len() + 1,
            final(self).ops()[old(self).ops().len() as int] == (Pending { code: LD_W_ABS, k: OFFSET_NR, when_true: Target::Next, when_false: Target::Next }),
            final(self).ops()[guard as int] == (Pending { code: old(self).ops()[guard as int].code, k: old(self).ops()[guard as int].k,
                when_true: old(self).ops()[guard as int].when_true, when_false: Target::Ahead((old(self).ops().len() - guard - 1) as u8) }),
            forall|j: int| 0 <= j < old(self).ops().len() && j != guard ==> #[trigger] final(self).ops()[j] == old(self).ops()[j],
    {
        // The reload is what a skipped block lands on; it costs one
        // instruction and keeps every following check honest.
        self.load(OFFSET_NR);
        let body = self.pending.len() - guard - 2;
        let mut entry = self.pending[guard];
        entry.when_false = Target::Ahead(body as u8);
        self.pending.set(guard, entry);
    }

    /// The finished program: every pending instruction with its jumps turned
    /// into distances, when_true the six verdicts.
    pub fn finish(self, errnos: &Errnos) -> (program: Vec<Instruction>)
        requires
            errnos.fit(),
            verdicts_in_range(self.ops()),
            aheads_within(self.ops(), self.ops().len() as int),
        ensures
            program@.len() == self.ops().len() + 6,
            forall|i: int| 0 <= i < self.ops().len() ==> #[trigger] program@[i] == resolved(self.ops()[i], i, self.ops().len() as int),
            forall|v: int| 0 <= v < 6 ==> #[trigger] program@[self.ops().len() + v]
                == (Instruction { code: RET_K, jt: 0, jf: 0, k: verdict_action(verdict_at(v), *errnos) }),
            jumps_land_inside(program@),
    {
        let first_verdict = self.pending.len();
        let mut program: Vec<Instruction> = Vec::new();
        let mut index: usize = 0;
        while index < first_verdict
            invariant
                first_verdict == self.ops().len(),
                first_verdict + 6 <= 255,
                index <= first_verdict,
                program@.len() == index,
                aheads_within(self.ops(), first_verdict as int),
                forall|i: int| 0 <= i < index ==> #[trigger] program@[i] == resolved(self.ops()[i], i, first_verdict as int),
            decreases first_verdict - index,
        {
            let p = self.pending[index];
            assert(ahead_within(self.ops()[index as int].when_true, index as int, first_verdict as int));
            assert(ahead_within(self.ops()[index as int].when_false, index as int, first_verdict as int));
            let jt = jump_distance(p.when_true, index, first_verdict);
            let jf = jump_distance(p.when_false, index, first_verdict);
            if p.code == JMP_JA {
                program.push(Instruction { code: p.code, jt: 0, jf: 0, k: jt as u32 });
            } else {
                program.push(Instruction { code: p.code, jt, jf, k: p.k });
            }
            index = index + 1;
        }
        let verdicts = [Verdict::Allow, Verdict::Eperm, Verdict::Enosys, Verdict::Eafnosupport, Verdict::Eprotonosupport, Verdict::Kill];
        let mut v: usize = 0;
        while v < 6
            invariant
                errnos.fit(),
                first_verdict == self.ops().len(),
                v <= 6,
                program@.len() == first_verdict + v,
                verdicts@ == seq![Verdict::Allow, Verdict::Eperm, Verdict::Enosys, Verdict::Eafnosupport, Verdict::Eprotonosupport, Verdict::Kill],
                forall|i: int| 0 <= i < first_verdict ==> #[trigger] program@[i] == resolved(self.ops()[i], i, first_verdict as int),
                forall|w: int| 0 <= w < v ==> #[trigger] program@[first_verdict + w]
                    == (Instruction { code: RET_K, jt: 0, jf: 0, k: verdict_action(verdict_at(w), *errnos) }),
            decreases 6 - v,
        {
            let verdict = verdicts[v];
            assert(verdict == verdict_at(v as int));
            program.push(Instruction { code: RET_K, jt: 0, jf: 0, k: verdict.action(errnos) });
            v = v + 1;
        }
        proof {
            let n = first_verdict as int;
            assert forall|i: int| 0 <= i < program@.len() implies {
                let ins = #[trigger] program@[i];
                &&& ins.code == JMP_JA ==> i + 1 + ins.k < program@.len()
                &&& (ins.code == JMP_JEQ_K || ins.code == JMP_JSET_K) ==> i + 1 + ins.jt < program@.len() && i + 1 + ins.jf < program@.len()
            } by {
                if i < n {
                    let p = self.ops()[i];
                    assert(program@[i] == resolved(p, i, n));
                    assert(ahead_within(p.when_true, i, n));
                    assert(ahead_within(p.when_false, i, n));
                    assert(0 <= distance(p.when_true, i, n) <= 255);
                    assert(0 <= distance(p.when_false, i, n) <= 255);
                } else {
                    let w = i - n;
                    assert(program@[n + w] == (Instruction { code: RET_K, jt: 0, jf: 0, k: verdict_action(verdict_at(w), *errnos) }));
                }
            }
        }
        program
    }
}

/// The distance a jump to `target` from `index` covers, in a program whose
/// verdicts start at `first_verdict`.
fn jump_distance(target: Target, index: usize, first_verdict: usize) -> (d: u8)
    requires
        index < first_verdict,
        first_verdict + 6 <= 255,
        ahead_within(target, index as int, first_verdict as int),
    ensures
        d as int == distance(target, index as int, first_verdict as int),
        0 <= distance(target, index as int, first_verdict as int) <= 255,
{
    match target {
        Target::Next => 0,
        Target::Ahead(count) => count,
        Target::Verdict(verdict) => {
            let landing = first_verdict + verdict.index();
            (landing - index - 1) as u8
        }
    }
}

} // verus!
