use vstd::prelude::*;
use crate::error::Chip8Error;

verus! {

/// Number of return addresses the call stack can hold.
pub const STACK_DEPTH: usize = 16;

/// The bounded stack of return addresses.
#[derive(PartialEq, Eq, Debug)]
pub struct Stack {
    stack: [u16; 16],
    stack_ptr: usize,
}

/// What a push does to a stack's contents: the value goes on top, unless the
/// stack is full.
pub open spec fn pushed(s: Seq<u16>, value: u16) -> Result<Seq<u16>, Chip8Error> {
    if s.len() < STACK_DEPTH {
        Ok(s.push(value))
    } else {
        Err(Chip8Error::StackOverflow)
    }
}

/// What a pop does to a stack's contents: the top value comes off, unless the
/// stack is empty.
pub open spec fn popped(s: Seq<u16>) -> Result<(u16, Seq<u16>), Chip8Error> {
    if s.len() > 0 {
        Ok((s.last(), s.drop_last()))
    } else {
        Err(Chip8Error::StackUnderflow)
    }
}

/// What pushing `values` one after the other does, the first value first.
pub open spec fn pushed_all(s: Seq<u16>, values: Seq<u16>) -> Result<Seq<u16>, Chip8Error>
    decreases values.len(),
{
    if values.len() == 0 {
        Ok(s)
    } else {
        match pushed(s, values.first()) {
            Ok(next) => pushed_all(next, values.drop_first()),
            Err(e) => Err(e),
        }
    }
}

/// What popping `count` times does: the values in the order they come off,
/// and what stays on the stack.
pub open spec fn popped_n(s: Seq<u16>, count: nat) -> Result<(Seq<u16>, Seq<u16>), Chip8Error>
    decreases count,
{
    if count == 0 {
        Ok((Seq::empty(), s))
    } else {
        match popped(s) {
            Ok((top, rest)) => match popped_n(rest, (count - 1) as nat) {
                Ok((values, left)) => Ok((seq![top] + values, left)),
                Err(e) => Err(e),
            },
            Err(e) => Err(e),
        }
    }
}

/// Pushes that fit all succeed and stack the values in order; as many pops
/// then give the values back newest first and leave the stack as it was.
pub proof fn lemma_push_pop_round_trip(s: Seq<u16>, values: Seq<u16>)
    requires
        s.len() + values.len() <= STACK_DEPTH,
    ensures
        pushed_all(s, values) == Ok::<Seq<u16>, Chip8Error>(s + values),
        popped_n(s + values, values.len()) == Ok::<(Seq<u16>, Seq<u16>), Chip8Error>(
            (values.reverse(), s),
        ),
    decreases values.len(),
{
    if values.len() == 0 {
        assert(s + values == s);
        assert(values.reverse() == Seq::<u16>::empty());
    } else {
        let next = s.push(values.first());
        let tail = values.drop_first();
        lemma_push_pop_round_trip(next, tail);
        assert(next + tail == s + values);
        let init = values.drop_last();
        let full = s + values;
        lemma_push_pop_round_trip(s, init);
        assert(full.last() == values.last());
        assert(full.drop_last() == s + init);
        assert(seq![values.last()] + init.reverse() == values.reverse());
    }
}

/// Pushes that do not all fit fail with an overflow.
pub proof fn lemma_push_beyond_capacity(s: Seq<u16>, values: Seq<u16>)
    requires
        s.len() <= STACK_DEPTH,
        s.len() + values.len() > STACK_DEPTH,
    ensures
        pushed_all(s, values) == Err::<Seq<u16>, Chip8Error>(Chip8Error::StackOverflow),
    decreases values.len(),
{
    if s.len() < STACK_DEPTH {
        lemma_push_beyond_capacity(s.push(values.first()), values.drop_first());
    }
}

/// Popping more values than the stack holds fails with an underflow.
pub proof fn lemma_pop_beyond_empty(s: Seq<u16>, count: nat)
    requires
        count > s.len(),
    ensures
        popped_n(s, count) == Err::<(Seq<u16>, Seq<u16>), Chip8Error>(Chip8Error::StackUnderflow),
    decreases count,
{
    if s.len() > 0 {
        lemma_pop_beyond_empty(s.drop_last(), (count - 1) as nat);
    }
}

impl Stack {
    /// The live entries, oldest first.
    pub closed spec fn view(&self) -> Seq<u16> {
        self.stack@.subrange(0, self.stack_ptr as int)
    }

    /// The stack pointer stays within the capacity.
    #[verifier::type_invariant]
    spec fn inv(&self) -> bool {
        self.stack_ptr <= STACK_DEPTH
    }

    /// An empty stack.
    pub fn new() -> (s: Self)
        ensures
            s@ == Seq::<u16>::empty(),
    {
        Self { stack: [0; 16], stack_ptr: 0 }
    }

    /// Shows that a stack never holds more than its capacity. Does nothing
    /// when run.
    pub fn check_depth(&self)
        ensures
            self@.len() <= STACK_DEPTH,
    {
        proof {
            use_type_invariant(self);
        }
    }

    /// Takes the newest return address off the stack.
    pub fn pop(&mut self) -> (r: Result<u16, Chip8Error>)
        ensures
            old(self)@.len() <= STACK_DEPTH,
            match popped(old(self)@) {
                Ok((top, rest)) => r == Ok::<u16, Chip8Error>(top) && final(self)@ == rest,
                Err(e) => r == Err::<u16, Chip8Error>(e) && final(self)@ == old(self)@,
            },
    {
        proof {
            use_type_invariant(&*self);
        }
        if self.stack_ptr == 0 {
            Err(Chip8Error::StackUnderflow)
        } else {
            self.stack_ptr -= 1;
            assert(self@ =~= old(self)@.drop_last());
            Ok(self.stack[self.stack_ptr])
        }
    }

    /// Puts a return address on the stack.
    pub fn push(&mut self, value: u16) -> (r: Result<(), Chip8Error>)
        ensures
            old(self)@.len() <= STACK_DEPTH,
            match pushed(old(self)@, value) {
                Ok(s) => r == Ok::<(), Chip8Error>(()) && final(self)@ == s,
                Err(e) => r == Err::<(), Chip8Error>(e) && final(self)@ == old(self)@,
            },
    {
        proof {
            use_type_invariant(&*self);
        }
        if self.stack_ptr >= 16 {
            Err(Chip8Error::StackOverflow)
        } else {
            self.stack[self.stack_ptr] = value;
            self.stack_ptr += 1;
            assert(self@ =~= old(self)@.push(value));
            Ok(())
        }
    }
}

} // verus!
