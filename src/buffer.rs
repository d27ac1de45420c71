//! The runtime machine that generated programs run against: byte buffers with
//! a per-byte borrow flag, checked at run time. A violation of the borrow
//! discipline is an error value; the host turns it into a panic.
use vstd::prelude::*;
use vstd::string::*;

use crate::text::{push_char, push_text};

verus! {

/// One byte of a buffer and whether it is borrowed.
#[derive(Debug, Clone, Copy, PartialEq, Eq, Structural)]
pub struct Byte {
    pub data: u8,
    pub borrowed: bool,
}

impl Byte {
    /// A byte holding `data`, not borrowed.
    pub fn new(data: u8) -> (r: Byte)
        ensures
            r == (Byte { data, borrowed: false }),
    {
        Byte { data, borrowed: false }
    }

    /// Marks the byte borrowed.
    pub fn borrow(&mut self)
        ensures
            *final(self) == (Byte { data: old(self).data, borrowed: true }),
    {
        self.borrowed = true;
    }

    /// Releases the byte's borrow.
    pub fn release(&mut self)
        ensures
            *final(self) == (Byte { data: old(self).data, borrowed: false }),
    {
        self.borrowed = false;
    }
}

/// The ways an operation on a buffer can break the rules; each stands for a
/// panic of the runtime.
#[derive(Debug, Clone, Copy, PartialEq, Eq, Structural)]
pub enum BufferError {
    /// The buffer was freed.
    UseAfterFree,
    /// An index or range lies outside the buffer.
    OutOfBounds,
    /// A byte is borrowed while the buffer is freed.
    FreeWhileBorrowed,
    /// A byte is borrowed again, mutably.
    MutableBorrowOfBorrowed,
    /// A borrowed byte is written.
    WriteToBorrowed,
}

/// An operation on a buffer.
#[derive(Debug, Clone, Copy, PartialEq, Eq, Structural)]
pub enum BufferOp {
    Free,
    Borrow { size: usize, index: usize },
    BorrowMut { size: usize, index: usize },
    Write { index: usize, value: u8 },
}

/// A buffer: its bytes while alive, nothing once freed.
pub struct Buffer {
    bytes: Option<Vec<Byte>>,
}

impl View for Buffer {
    type V = Option<Seq<Byte>>;

    closed spec fn view(&self) -> Option<Seq<Byte>> {
        match self.bytes {
            Some(v) => Some(v@),
            None => None,
        }
    }
}

/// Whether some byte of `b[lo..hi]` is borrowed.
pub open spec fn any_borrowed(b: Seq<Byte>, lo: int, hi: int) -> bool {
    exists|i: int| lo <= i < hi && #[trigger] b[i].borrowed
}

/// `b` with the bytes of `[lo, hi)` borrowed.
pub open spec fn mark(b: Seq<Byte>, lo: int, hi: int) -> Seq<Byte> {
    Seq::new(b.len(), |i: int| if lo <= i < hi { Byte { data: b[i].data, borrowed: true } } else { b[i] })
}

/// The data of `b[lo..hi]`.
pub open spec fn data_of(b: Seq<Byte>, lo: int, hi: int) -> Seq<u8> {
    Seq::new((hi - lo) as nat, |i: int| b[lo + i].data)
}

/// The state after an operation, or the rule it breaks.
pub open spec fn op_outcome(st: Option<Seq<Byte>>, op: BufferOp) -> Result<Option<Seq<Byte>>, BufferError> {
    match op {
        BufferOp::Free => match st {
            None => Ok(None),
            Some(b) => if any_borrowed(b, 0, b.len() as int) { Err(BufferError::FreeWhileBorrowed) } else { Ok(None) },
        },
        BufferOp::Borrow { size, index } => match st {
            None => Err(BufferError::UseAfterFree),
            Some(b) => if index + size > b.len() {
                Err(BufferError::OutOfBounds)
            } else {
                Ok(Some(mark(b, index as int, index + size)))
            },
        },
        BufferOp::BorrowMut { size, index } => match st {
            None => Err(BufferError::UseAfterFree),
            Some(b) => if index + size > b.len() {
                Err(BufferError::OutOfBounds)
            } else if any_borrowed(b, index as int, index + size) {
                Err(BufferError::MutableBorrowOfBorrowed)
            } else {
                Ok(Some(mark(b, index as int, index + size)))
            },
        },
        BufferOp::Write { index, value } => match st {
            None => Err(BufferError::UseAfterFree),
            Some(b) => if index >= b.len() {
                Err(BufferError::OutOfBounds)
            } else if b[index as int].borrowed {
                Err(BufferError::WriteToBorrowed)
            } else {
                Ok(Some(b.update(index as int, Byte { data: value, borrowed: false })))
            },
        },
    }
}

/// A sequence of operations run in order: the final state, or the index of the
/// first operation that breaks a rule, with the rule.
pub open spec fn run_outcome(st: Option<Seq<Byte>>, ops: Seq<BufferOp>) -> Result<Option<Seq<Byte>>, (nat, BufferError)>
    decreases ops.len(),
{
    if ops.len() == 0 {
        Ok(st)
    } else {
        match op_outcome(st, ops[0]) {
            Err(e) => Err((0, e)),
            Ok(next) => match run_outcome(next, ops.drop_first()) {
                Ok(f) => Ok(f),
                Err(p) => Err(((p.0 + 1) as nat, p.1)),
            },
        }
    }
}

/// The state after the first `k` operations, none of which breaks a rule.
pub open spec fn state_after(st: Option<Seq<Byte>>, ops: Seq<BufferOp>, k: nat) -> Option<Seq<Byte>>
    decreases k,
{
    if k == 0 || ops.len() == 0 {
        st
    } else {
        match op_outcome(st, ops[0]) {
            Ok(next) => state_after(next, ops.drop_first(), (k - 1) as nat),
            Err(_) => st,
        }
    }
}

/// Whether the first `k` operations all keep the rules.
pub open spec fn all_keep_rules(st: Option<Seq<Byte>>, ops: Seq<BufferOp>, k: nat) -> bool
    decreases k,
{
    if k == 0 || ops.len() == 0 {
        true
    } else {
        match op_outcome(st, ops[0]) {
            Ok(next) => all_keep_rules(next, ops.drop_first(), (k - 1) as nat),
            Err(_) => false,
        }
    }
}

/// A sequence of buffer operations either keeps the rules throughout and
/// completes, or stops at the first operation that breaks one: every earlier
/// operation kept them, and that operation breaks them in the state they left.
pub proof fn lemma_run_stops_at_first_violation(st: Option<Seq<Byte>>, ops: Seq<BufferOp>)
    ensures
        match run_outcome(st, ops) {
            Ok(f) => all_keep_rules(st, ops, ops.len()) && f == state_after(st, ops, ops.len()),
            Err(p) => p.0 < ops.len() && all_keep_rules(st, ops, p.0)
                && op_outcome(state_after(st, ops, p.0), ops[p.0 as int]) == Err::<Option<Seq<Byte>>, BufferError>(p.1),
        },
    decreases ops.len(),
{
    if ops.len() > 0 {
        match op_outcome(st, ops[0]) {
            Err(_) => {},
            Ok(next) => {
                lemma_run_stops_at_first_violation(next, ops.drop_first());
                match run_outcome(next, ops.drop_first()) {
                    Ok(_) => {},
                    Err(p) => {
                        assert(ops.drop_first()[p.0 as int] == ops[p.0 as int + 1]);
                    },
                }
            },
        }
    }
}

fn any_borrowed_in(v: &Vec<Byte>, lo: usize, hi: usize) -> (r: bool)
    requires
        lo <= hi <= v@.len(),
    ensures
        r == any_borrowed(v@, lo as int, hi as int),
{
    let mut i = lo;
    while i < hi
        invariant
            lo <= i <= hi <= v@.len(),
            forall|j: int| lo <= j < i ==> !(#[trigger] v@[j]).borrowed,
        decreases hi - i,
    {
        if v[i].borrowed {
            return true;
        }
        i = i + 1;
    }
    false
}

fn mark_range(v: &mut Vec<Byte>, lo: usize, hi: usize) -> (r: Vec<u8>)
    requires
        lo <= hi <= old(v)@.len(),
    ensures
        final(v)@ == mark(old(v)@, lo as int, hi as int),
        r@ == data_of(old(v)@, lo as int, hi as int),
{
    let ghost start = v@;
    let mut out: Vec<u8> = Vec::new();
    let mut i = lo;
    while i < hi
        invariant
            lo <= i <= hi <= start.len(),
            v@.len() == start.len(),
            forall|j: int| 0 <= j < start.len() ==> #[trigger] v@[j] == if lo <= j < i {
                Byte { data: start[j].data, borrowed: true }
            } else {
                start[j]
            },
            out@ == data_of(start, lo as int, i as int),
        decreases hi - i,
    {
        let mut b = v[i];
        b.borrow();
        v.set(i, b);
        out.push(b.data);
        i = i + 1;
        assert(out@ =~= data_of(start, lo as int, i as int));
    }
    assert(v@ =~= mark(start, lo as int, hi as int));
    out
}

impl Buffer {
    /// A new buffer of `n` zero bytes, none borrowed.
    pub fn new(n: usize) -> (r: Buffer)
        ensures
            r@ == Some(Seq::new(n as nat, |i: int| Byte { data: 0, borrowed: false })),
    {
        let mut v: Vec<Byte> = Vec::new();
        let mut i: usize = 0;
        while i < n
            invariant
                i <= n,
                v@ == Seq::new(i as nat, |j: int| Byte { data: 0, borrowed: false }),
            decreases n - i,
        {
            v.push(Byte::new(0));
            i = i + 1;
            assert(v@ =~= Seq::new(i as nat, |j: int| Byte { data: 0, borrowed: false }));
        }
        Buffer { bytes: Some(v) }
    }

    /// Whether the buffer has been freed.
    pub fn is_freed(&self) -> (r: bool)
        ensures
            r == (self@ is None),
    {
        self.bytes.is_none()
    }

    /// Frees the buffer; freeing it again does nothing. While any byte is
    /// borrowed the runtime panics; here that panic is the result
    /// `Err(FreeWhileBorrowed)`, with the buffer left as it was.
    pub fn free(&mut self) -> (r: Result<(), BufferError>)
        ensures
            match op_outcome(old(self)@, BufferOp::Free) {
                Ok(s) => r is Ok && final(self)@ == s,
                Err(e) => r == Err::<(), BufferError>(e) && final(self)@ == old(self)@,
            },
    {
        let busy = match &self.bytes {
            None => false,
            Some(v) => any_borrowed_in(v, 0, v.len()),
        };
        if busy {
            return Err(BufferError::FreeWhileBorrowed);
        }
        self.bytes = None;
        Ok(())
    }

    /// Borrows the bytes `[index, index + size)` and returns a copy of their data.
    /// Borrowed bytes may be borrowed again. Where the runtime panics (the
    /// buffer is freed, or the range leaves it) the result is `Err(UseAfterFree)`
    /// or `Err(OutOfBounds)`, with the buffer left as it was.
    pub fn borrow(&mut self, size: usize, index: usize) -> (r: Result<Vec<u8>, BufferError>)
        ensures
            match op_outcome(old(self)@, BufferOp::Borrow { size, index }) {
                Ok(s) => r matches Ok(d) && final(self)@ == s
                    && d@ == data_of(old(self)@->0, index as int, index + size),
                Err(e) => r matches Err(x) && x == e && final(self)@ == old(self)@,
            },
    {
        match &mut self.bytes {
            None => Err(BufferError::UseAfterFree),
            Some(v) => {
                if size > v.len() || index > v.len() - size {
                    return Err(BufferError::OutOfBounds);
                }
                Ok(mark_range(v, index, index + size))
            },
        }
    }

    /// Borrows the bytes `[index, index + size)` mutably and returns a copy of
    /// their data. Where the runtime panics the result is an error with the
    /// buffer left as it was: `Err(MutableBorrowOfBorrowed)` if one of the
    /// bytes is borrowed, `Err(UseAfterFree)` or `Err(OutOfBounds)` otherwise.
    pub fn borrow_mut(&mut self, size: usize, index: usize) -> (r: Result<Vec<u8>, BufferError>)
        ensures
            match op_outcome(old(self)@, BufferOp::BorrowMut { size, index }) {
                Ok(s) => r matches Ok(d) && final(self)@ == s
                    && d@ == data_of(old(self)@->0, index as int, index + size),
                Err(e) => r matches Err(x) && x == e && final(self)@ == old(self)@,
            },
    {
        match &mut self.bytes {
            None => Err(BufferError::UseAfterFree),
            Some(v) => {
                if size > v.len() || index > v.len() - size {
                    return Err(BufferError::OutOfBounds);
                }
                if any_borrowed_in(v, index, index + size) {
                    return Err(BufferError::MutableBorrowOfBorrowed);
                }
                Ok(mark_range(v, index, index + size))
            },
        }
    }

    /// Reads the byte at `index`; reading is allowed while it is borrowed. Where
    /// the runtime panics the result is `Err(UseAfterFree)` or `Err(OutOfBounds)`.
    pub fn get(&self, index: usize) -> (r: Result<u8, BufferError>)
        ensures
            match self@ {
                None => r == Err::<u8, BufferError>(BufferError::UseAfterFree),
                Some(b) => if index < b.len() {
                    r == Ok::<u8, BufferError>(b[index as int].data)
                } else {
                    r == Err::<u8, BufferError>(BufferError::OutOfBounds)
                },
            },
    {
        match &self.bytes {
            None => Err(BufferError::UseAfterFree),
            Some(v) => if index < v.len() { Ok(v[index].data) } else { Err(BufferError::OutOfBounds) },
        }
    }

    /// Writes `value` at `index`. Where the runtime panics the result is an
    /// error with the buffer left as it was: `Err(WriteToBorrowed)` if that byte
    /// is borrowed, `Err(UseAfterFree)` or `Err(OutOfBounds)` otherwise.
    pub fn set(&mut self, index: usize, value: u8) -> (r: Result<(), BufferError>)
        ensures
            match op_outcome(old(self)@, BufferOp::Write { index, value }) {
                Ok(s) => r is Ok && final(self)@ == s,
                Err(e) => r == Err::<(), BufferError>(e) && final(self)@ == old(self)@,
            },
    {
        match &mut self.bytes {
            None => Err(BufferError::UseAfterFree),
            Some(v) => {
                if index >= v.len() {
                    return Err(BufferError::OutOfBounds);
                }
                if v[index].borrowed {
                    return Err(BufferError::WriteToBorrowed);
                }
                v.set(index, Byte::new(value));
                Ok(())
            },
        }
    }

    /// Applies one operation.
    pub fn apply(&mut self, op: BufferOp) -> (r: Result<(), BufferError>)
        ensures
            match op_outcome(old(self)@, op) {
                Ok(s) => r is Ok && final(self)@ == s,
                Err(e) => r == Err::<(), BufferError>(e) && final(self)@ == old(self)@,
            },
    {
        match op {
            BufferOp::Free => self.free(),
            BufferOp::Borrow { size, index } => match self.borrow(size, index) {
                Ok(_) => Ok(()),
                Err(e) => Err(e),
            },
            BufferOp::BorrowMut { size, index } => match self.borrow_mut(size, index) {
                Ok(_) => Ok(()),
                Err(e) => Err(e),
            },
            BufferOp::Write { index, value } => self.set(index, value),
        }
    }

    /// Applies operations in order and stops at the first that breaks a rule,
    /// returning its index and the rule.
    pub fn run(&mut self, ops: &Vec<BufferOp>) -> (r: Result<(), (usize, BufferError)>)
        ensures
            match run_outcome(old(self)@, ops@) {
                Ok(f) => r is Ok && final(self)@ == f,
                Err(p) => r matches Err(q) && q.0 as nat == p.0 && q.1 == p.1,
            },
    {
        let ghost st0 = self@;
        let mut i: usize = 0;
        assert(ops@.subrange(0, ops@.len() as int) =~= ops@);
        while i < ops.len()
            invariant
                i <= ops@.len(),
                st0 == old(self)@,
                run_outcome(st0, ops@) == match run_outcome(self@, ops@.subrange(i as int, ops@.len() as int)) {
                    Ok(f) => Ok(f),
                    Err(p) => Err::<Option<Seq<Byte>>, (nat, BufferError)>(((p.0 + i) as nat, p.1)),
                },
            decreases ops@.len() - i,
        {
            let ghost rest = ops@.subrange(i as int, ops@.len() as int);
            assert(rest.drop_first() =~= ops@.subrange(i as int + 1, ops@.len() as int));
            assert(rest[0] == ops@[i as int]);
            match self.apply(ops[i]) {
                Err(e) => return Err((i, e)),
                Ok(()) => {},
            }
            i = i + 1;
        }
        Ok(())
    }

    /// The buffer's bytes as two-digit lower-case hex separated by spaces, in
    /// `Buffer(..)`; a freed buffer shows no bytes.
    pub fn render(&self) -> (r: String)
        ensures
            r@ == "Buffer("@ + hex_list(match self@ { Some(b) => b, None => Seq::empty() }) + ")"@,
    {
        let mut out = String::from_str("Buffer(");
        let ghost start = out@;
        let empty: Vec<Byte> = Vec::new();
        let v = match &self.bytes {
            Some(v) => v,
            None => &empty,
        };
        let mut i: usize = 0;
        while i < v.len()
            invariant
                i <= v@.len(),
                out@ == start + hex_list(v@.subrange(0, i as int)),
            decreases v@.len() - i,
        {
            let ghost pre = v@.subrange(0, i as int + 1);
            assert(pre.drop_last() =~= v@.subrange(0, i as int));
            if i > 0 {
                push_char(&mut out, ' ');
            }
            push_char(&mut out, hex_digit_of(v[i].data / 16));
            push_char(&mut out, hex_digit_of(v[i].data % 16));
            i = i + 1;
            assert(out@ =~= start + hex_list(pre));
        }
        assert(v@.subrange(0, i as int) =~= v@);
        push_text(&mut out, ")");
        out
    }
}

/// A new buffer of `n` zero bytes.
pub fn allocate(n: usize) -> (r: Buffer)
    ensures
        r@ == Some(Seq::new(n as nat, |i: int| Byte { data: 0, borrowed: false })),
{
    Buffer::new(n)
}

/// Frees a buffer, as `Buffer::free` does.
pub fn free(buffer: &mut Buffer) -> (r: Result<(), BufferError>)
    ensures
        match op_outcome(old(buffer)@, BufferOp::Free) {
            Ok(s) => r is Ok && final(buffer)@ == s,
            Err(e) => r == Err::<(), BufferError>(e) && final(buffer)@ == old(buffer)@,
        },
{
    buffer.free()
}

/// The identity: the value it is handed is the value it returns, and the
/// optimiser treats a call of it as an observation it must keep.
pub fn blackbox<T>(v: T) -> (r: T)
    ensures
        r == v,
{
    v
}

/// The lower-case hex digit for `d < 16`.
pub open spec fn hex_digit(d: int) -> char {
    if d < 10 { ((d + 48) as u32) as char } else { ((d + 87) as u32) as char }
}

/// Bytes as two-digit lower-case hex, separated by single spaces.
pub open spec fn hex_list(b: Seq<Byte>) -> Seq<char>
    decreases b.len(),
{
    if b.len() == 0 {
        Seq::empty()
    } else {
        let d = b.last().data as int;
        hex_list(b.drop_last()) + (if b.len() > 1 { seq![' '] } else { Seq::empty() })
            + seq![hex_digit(d / 16), hex_digit(d % 16)]
    }
}

fn hex_digit_of(d: u8) -> (c: char)
    requires
        d < 16,
    ensures
        c == hex_digit(d as int),
{
    let digits: [char; 16] = ['0', '1', '2', '3', '4', '5', '6', '7', '8', '9', 'a', 'b', 'c', 'd', 'e', 'f'];
    let c = digits[d as usize];
    c
}

} // verus!
