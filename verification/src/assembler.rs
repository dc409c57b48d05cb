//! Enough of an assembler to write a 6502 program with labels: bytes
//! in, branches and jumps by name, resolved at the end. A label is named
//! by a small number; every opcode is written out at the call.

use vstd::prelude::*;
use crate::bytes::{emit, fill};

verus! {

/// A 6502 branch's operand for a displacement `d` in -128..=127: the
/// byte that reads as `d` in two's complement.
pub open spec fn rel_byte(d: int) -> u8 {
    if d < 0 { (d + 256) as u8 } else { d as u8 }
}

/// The image once every fix-up in `fixes` is written in order: a branch
/// gets the displacement from the byte after its operand to its label,
/// a jump the label's address, low byte first.
pub open spec fn resolve(code: Seq<u8>, labels: Map<usize, u16>, fixes: Seq<(usize, usize, bool)>, org: u16) -> Seq<u8>
    decreases fixes.len(),
{
    if fixes.len() == 0 {
        code
    } else {
        let prev = resolve(code, labels, fixes.drop_last(), org);
        let (at, name, rel) = fixes.last();
        let target = labels[name];
        if rel {
            prev.update(at as int, rel_byte(target - (org + at + 1)))
        } else {
            prev.update(at as int, (target % 256) as u8).update(at + 1, (target / 256) as u8)
        }
    }
}

/// A fix-up can be resolved: its label exists, its operand lies in the
/// code, and a branch's label is in reach of it.
pub open spec fn resolvable(code_len: nat, labels: Map<usize, u16>, fix: (usize, usize, bool), org: u16) -> bool {
    let (at, name, rel) = fix;
    &&& labels.dom().contains(name)
    &&& if rel {
        &&& at < code_len
        &&& -128 <= labels[name] - (org + at + 1) <= 127
    } else {
        at + 1 < code_len
    }
}

pub struct Asm {
    org: u16,
    b: Vec<u8>,
    labels: Vec<Option<u16>>,
    /// (offset, label, relative)
    fix: Vec<(usize, usize, bool)>,
}

impl Asm {
    /// Where the code is assembled to run.
    pub closed spec fn origin(self) -> u16 {
        self.org
    }

    /// The bytes so far, operands of unresolved references as zeros.
    pub closed spec fn code(self) -> Seq<u8> {
        self.b@
    }

    /// Each label defined so far, and its address.
    pub closed spec fn label_map(self) -> Map<usize, u16> {
        Map::new(|n: usize| n < self.labels@.len() && self.labels@[n as int] is Some, |n: usize| self.labels@[n as int]->0)
    }

    /// The references to resolve: (operand offset, label, relative).
    pub closed spec fn fixups(self) -> Seq<(usize, usize, bool)> {
        self.fix@
    }

    /// The address the next byte lands at.
    pub open spec fn spec_pc(self) -> int {
        self.origin() + self.code().len()
    }

    pub fn new(org: u16) -> (a: Asm)
        ensures
            a.origin() == org,
            a.code() == Seq::<u8>::empty(),
            a.label_map() == Map::<usize, u16>::empty(),
            a.fixups() == Seq::<(usize, usize, bool)>::empty(),
    {
        let a = Asm { org, b: Vec::new(), labels: Vec::new(), fix: Vec::new() };
        assert(a.label_map() =~= Map::<usize, u16>::empty());
        a
    }

    pub fn pc(&self) -> (pc: u16)
        requires
            self.spec_pc() <= 0xffff,
        ensures
            pc == self.spec_pc(),
    {
        self.org + self.b.len() as u16
    }

    pub fn e(&mut self, bytes: &[u8])
        requires
            old(self).code().len() + bytes@.len() <= 0x10000,
        ensures
            final(self).code() == old(self).code() + bytes@,
            final(self).origin() == old(self).origin(),
            final(self).label_map() == old(self).label_map(),
            final(self).fixups() == old(self).fixups(),
    {
        emit(&mut self.b, bytes);
    }

    /// Name the address the next byte lands at; a name is given once.
    pub fn label(&mut self, name: usize)
        requires
            !old(self).label_map().dom().contains(name),
            old(self).spec_pc() <= 0xffff,
            name < 0x10000,
        ensures
            final(self).label_map() == old(self).label_map().insert(name, old(self).spec_pc() as u16),
            final(self).code() == old(self).code(),
            final(self).origin() == old(self).origin(),
            final(self).fixups() == old(self).fixups(),
    {
        let pc = self.pc();
        while self.labels.len() <= name
            invariant
                self.org == old(self).org,
                self.b@ == old(self).b@,
                self.fix@ == old(self).fix@,
                self.label_map() == old(self).label_map(),
            decreases name + 1 - self.labels@.len(),
        {
            self.labels.push(None);
            assert(self.label_map() =~= old(self).label_map());
        }
        self.labels.set(name, Some(pc));
        assert(self.label_map() =~= old(self).label_map().insert(name, pc));
    }

    /// A branch: the opcode and a displacement to `to`, filled in by
    /// `finish`.
    pub fn br(&mut self, op: u8, to: usize)
        requires
            old(self).code().len() + 2 <= 0x10000,
        ensures
            final(self).code() == old(self).code() + seq![op, 0u8],
            final(self).fixups() == old(self).fixups().push(((old(self).code().len() + 1) as usize, to, true)),
            final(self).origin() == old(self).origin(),
            final(self).label_map() == old(self).label_map(),
    {
        self.e(&[op, 0]);
        self.fix.push((self.b.len() - 1, to, true));
    }

    /// An absolute operand: the opcode and `to`'s address, filled in by
    /// `finish`.
    pub fn abs(&mut self, op: u8, to: usize)
        requires
            old(self).code().len() + 3 <= 0x10000,
        ensures
            final(self).code() == old(self).code() + seq![op, 0u8, 0u8],
            final(self).fixups() == old(self).fixups().push(((old(self).code().len() + 1) as usize, to, false)),
            final(self).origin() == old(self).origin(),
            final(self).label_map() == old(self).label_map(),
    {
        self.e(&[op, 0, 0]);
        self.fix.push((self.b.len() - 2, to, false));
    }

    pub fn jmp(&mut self, to: usize)
        requires
            old(self).code().len() + 3 <= 0x10000,
        ensures
            final(self).code() == old(self).code() + seq![0x4cu8, 0u8, 0u8],
            final(self).fixups() == old(self).fixups().push(((old(self).code().len() + 1) as usize, to, false)),
            final(self).origin() == old(self).origin(),
            final(self).label_map() == old(self).label_map(),
    {
        self.abs(0x4c, to);
    }

    pub fn jsr(&mut self, to: usize)
        requires
            old(self).code().len() + 3 <= 0x10000,
        ensures
            final(self).code() == old(self).code() + seq![0x20u8, 0u8, 0u8],
            final(self).fixups() == old(self).fixups().push(((old(self).code().len() + 1) as usize, to, false)),
            final(self).origin() == old(self).origin(),
            final(self).label_map() == old(self).label_map(),
    {
        self.abs(0x20, to);
    }

    /// NOPs up to `addr`; the code must not have run past it.
    pub fn pad_to(&mut self, addr: u16)
        requires
            old(self).spec_pc() <= addr,
        ensures
            final(self).code() == old(self).code() + fill(addr - old(self).spec_pc(), 0xea),
            final(self).origin() == old(self).origin(),
            final(self).label_map() == old(self).label_map(),
            final(self).fixups() == old(self).fixups(),
    {
        while self.pc() < addr
            invariant
                self.org == old(self).org,
                old(self).spec_pc() <= addr,
                self.spec_pc() <= addr,
                self.b@ == old(self).b@ + fill(self.spec_pc() - old(self).spec_pc(), 0xea),
                self.labels@ == old(self).labels@,
                self.fix@ == old(self).fix@,
            decreases addr - self.spec_pc(),
        {
            self.b.push(0xea);
            assert(self.b@ =~= old(self).b@ + fill(self.spec_pc() - old(self).spec_pc(), 0xea));
        }
    }

    /// The address a label names.
    pub fn address(&self, name: usize) -> (r: u16)
        requires
            self.label_map().dom().contains(name),
        ensures
            r == self.label_map()[name],
    {
        match self.labels[name] {
            Some(t) => t,
            None => 0,
        }
    }

    /// Every reference written in, in the order it was made.
    pub fn finish(self) -> (r: Vec<u8>)
        requires
            self.spec_pc() <= 0x10000,
            forall|i: int|
                0 <= i < self.fixups().len() ==> resolvable(
                    self.code().len(),
                    self.label_map(),
                    #[trigger] self.fixups()[i],
                    self.origin(),
                ),
        ensures
            r@ == resolve(self.code(), self.label_map(), self.fixups(), self.origin()),
    {
        let Asm { org, b, labels, fix } = self;
        let ghost lm = self.label_map();
        let mut b = b;
        let mut i: usize = 0;
        while i < fix.len()
            invariant
                i <= fix@.len(),
                fix@ == self.fixups(),
                labels@ == self.labels@,
                org == self.origin(),
                lm == self.label_map(),
                org + self.code().len() <= 0x10000,
                forall|k: int| 0 <= k < fix@.len() ==> resolvable(self.code().len(), lm, #[trigger] fix@[k], org),
                b@.len() == self.code().len(),
                b@ == resolve(self.code(), lm, fix@.subrange(0, i as int), org),
            decreases fix@.len() - i,
        {
            let (at, name, rel) = fix[i];
            assert(resolvable(self.code().len(), lm, fix@[i as int], org));
            let target = match labels[name] {
                Some(t) => t,
                None => 0,
            };
            assert(target == lm[name]);
            if rel {
                let from: i32 = org as i32 + at as i32 + 1;
                let d: i32 = target as i32 - from;
                b.set(at, if d < 0 { (d + 256) as u8 } else { d as u8 });
            } else {
                b.set(at, target as u8);
                b.set(at + 1, (target >> 8) as u8);
                assert((target as u8) as int == target % 256 && (target >> 8u16) as u8 == target / 256) by (bit_vector);
            }
            assert(fix@.subrange(0, i + 1).drop_last() =~= fix@.subrange(0, i as int));
            i += 1;
        }
        assert(fix@.subrange(0, fix@.len() as int) =~= fix@);
        b
    }
}

/// Resolving leaves every byte that no reference's operand covers as it
/// was, and never changes the length.
pub proof fn lemma_resolve_keeps(code: Seq<u8>, labels: Map<usize, u16>, fixes: Seq<(usize, usize, bool)>, org: u16, j: int)
    requires
        0 <= j < code.len(),
        forall|i: int| 0 <= i < fixes.len() ==> (#[trigger] fixes[i]).0 != j && fixes[i].0 + 1 != j,
        forall|i: int| 0 <= i < fixes.len() ==> (#[trigger] fixes[i]).0 + 1 < code.len(),
    ensures
        resolve(code, labels, fixes, org).len() == code.len(),
        resolve(code, labels, fixes, org)[j] == code[j],
    decreases fixes.len(),
{
    if fixes.len() > 0 {
        assert forall|i: int| 0 <= i < fixes.drop_last().len() implies (#[trigger] fixes.drop_last()[i]).0 != j
            && fixes.drop_last()[i].0 + 1 != j by {
            assert(fixes.drop_last()[i] == fixes[i]);
        }
        assert forall|i: int| 0 <= i < fixes.drop_last().len() implies (#[trigger] fixes.drop_last()[i]).0 + 1 < code.len() by {
            assert(fixes.drop_last()[i] == fixes[i]);
        }
        lemma_resolve_keeps(code, labels, fixes.drop_last(), org, j);
        assert(fixes.last() == fixes[fixes.len() - 1]);
    }
}

} // verus!
