use vstd::prelude::*;
use vstd::wrapping::i32_specs;

verus! {

/// An element of the stack. May be either integer or boolean.
#[derive(Eq, PartialEq, Ord, PartialOrd, Debug, Clone, Copy)]
pub enum Elt {
    Int(i32),
    Bool(bool),
}

/// The error type of `std::io` carries no structure that the calculator
/// inspects; it is only stored inside [`Error::IO`] and handed back out.
#[verifier::external_type_specification]
#[verifier::external_body]
pub struct ExIoError(std::io::Error);

/// An RPN calculator error.
#[derive(Debug)]
pub enum Error {
    /// Tried to pop from an empty stack.
    Underflow,
    /// Tried to operate on invalid values (e.g. 4 + true, or a draw bound of 0).
    Type,
    /// Unable to parse the input.
    Syntax,
    /// Some IO error occurred.
    IO(std::io::Error),
    /// The user quit the program (with `quit`).
    Quit,
}

/// Types of RPN calculator operations.
#[derive(Debug)]
pub enum Op {
    /// Adds two numbers: pop x, pop y, push x + y.
    Add,
    /// Checks equality of two values: pop x, pop y, push x == y.
    Eq,
    /// Negates a value: pop x, push ~x.
    Neg,
    /// Swaps two values: pop x, pop y, push x, push y.
    Swap,
    /// Computes a random number: pop x, push random number in [0, x).
    Rand,
    /// Quit the calculator.
    Quit,
}

pub struct Stack {
    elements: Vec<Elt>,
}

impl View for Stack {
    type V = Seq<Elt>;

    closed spec fn view(&self) -> Seq<Elt> {
        self.elements@
    }
}

pub open spec fn is_int(e: Elt) -> bool {
    e matches Elt::Int(_)
}

pub open spec fn int_val(e: Elt) -> i32 {
    e->Int_0
}

pub open spec fn is_bool(e: Elt) -> bool {
    e matches Elt::Bool(_)
}

pub open spec fn bool_val(e: Elt) -> bool {
    e->Bool_0
}

/// What one draw normalized against the bound `x` may look like: for a
/// positive bound a value in `[0, x)`, for a negative bound a value in
/// `(x, 0]`, always congruent to the raw draw modulo `x`.
pub open spec fn rand_in_range(m: i32, x: i32) -> bool {
    if x > 0 {
        0 <= m < x
    } else {
        x < m <= 0
    }
}

/// How `eval` relates the stack before (`pre`) and after (`post`) the
/// operation, together with its result. Operands are consumed as they are
/// popped, so an operation that fails midway leaves its earlier pops gone.
pub open spec fn eval_rel(pre: Seq<Elt>, op: Op, post: Seq<Elt>, r: Result<(), Error>) -> bool {
    match op {
        Op::Add => {
            if pre.len() == 0 {
                post == pre && r matches Err(Error::Underflow)
            } else if !is_int(pre.last()) {
                post == pre.drop_last() && r matches Err(Error::Type)
            } else if pre.len() == 1 {
                post == pre.drop_last() && r matches Err(Error::Underflow)
            } else if !is_int(pre[pre.len() - 2]) {
                post == pre.drop_last().drop_last() && r matches Err(Error::Type)
            } else {
                let x = int_val(pre.last());
                let y = int_val(pre[pre.len() - 2]);
                post == pre.drop_last().drop_last().push(
                    Elt::Int(i32_specs::wrapping_add(x, y)),
                ) && r matches Ok(_)
            }
        },
        Op::Eq => {
            if pre.len() == 0 {
                post == pre && r matches Err(Error::Underflow)
            } else if pre.len() == 1 {
                post == pre.drop_last() && r matches Err(Error::Underflow)
            } else if is_int(pre.last()) != is_int(pre[pre.len() - 2]) {
                post == pre.drop_last().drop_last() && r matches Err(Error::Type)
            } else {
                let same = if is_int(pre.last()) {
                    int_val(pre.last()) == int_val(pre[pre.len() - 2])
                } else {
                    bool_val(pre.last()) == bool_val(pre[pre.len() - 2])
                };
                post == pre.drop_last().drop_last().push(Elt::Bool(same)) && r matches Ok(_)
            }
        },
        Op::Neg => {
            if pre.len() == 0 {
                post == pre && r matches Err(Error::Underflow)
            } else if is_int(pre.last()) {
                post == pre.drop_last().push(
                    Elt::Int(i32_specs::wrapping_sub(0, int_val(pre.last()))),
                ) && r matches Ok(_)
            } else {
                post == pre.drop_last().push(Elt::Bool(!bool_val(pre.last()))) && r matches Ok(_)
            }
        },
        Op::Swap => {
            if pre.len() == 0 {
                post == pre && r matches Err(Error::Underflow)
            } else if pre.len() == 1 {
                post == pre.drop_last() && r matches Err(Error::Underflow)
            } else {
                post == pre.drop_last().drop_last().push(pre.last()).push(pre[pre.len() - 2])
                    && r matches Ok(_)
            }
        },
        Op::Rand => {
            if pre.len() == 0 {
                post == pre && r matches Err(Error::Underflow)
            } else if !is_int(pre.last()) {
                post == pre.drop_last() && r matches Err(Error::Type)
            } else if int_val(pre.last()) == 0 {
                post == pre.drop_last() && r matches Err(Error::Type)
            } else {
                let x = int_val(pre.last());
                (exists|m: i32|
                    rand_in_range(m, x) && post == pre.drop_last().push(Elt::Int(m)))
                    && r matches Ok(_)
            }
        },
        Op::Quit => post == pre && r matches Err(Error::Quit),
    }
}

/// Relies on `rand::random`: an arbitrary value of the requested type; no
/// distribution or determinism is assumed.
pub assume_specification<T>[ rand::random::<T> ]() -> (r: T)
    where
        rand::distributions::Standard: rand::distributions::Distribution<T>,
;

impl Stack {
    /// Creates a new Stack
    pub fn new() -> (s: Stack)
        ensures
            s@ == Seq::<Elt>::empty(),
    {
        Stack { elements: Vec::new() }
    }

    /// Pushes a value onto the stack.
    pub fn push(&mut self, val: Elt) -> (r: Result<(), Error>)
        ensures
            final(self)@ == old(self)@.push(val),
            r matches Ok(_),
    {
        self.elements.push(val);
        Ok(())
    }

    /// Tries to pop a value off of the stack.
    pub fn pop(&mut self) -> (r: Result<Elt, Error>)
        ensures
            old(self)@.len() == 0 ==> final(self)@ == old(self)@ && r matches Err(
                Error::Underflow,
            ),
            old(self)@.len() > 0 ==> (final(self)@ == old(self)@.drop_last() && (r matches Ok(e)
                && e == old(self)@.last())),
    {
        match self.elements.pop() {
            Some(e) => Ok(e),
            None => Err(Error::Underflow),
        }
    }

    /// Tries to evaluate an operator using values on the stack.
    pub fn eval(&mut self, op: Op) -> (r: Result<(), Error>)
        ensures
            eval_rel(old(self)@, op, final(self)@, r),
    {
        match op {
            Op::Add => {
                if let Elt::Int(x) = self.pop()? {
                    if let Elt::Int(y) = self.pop()? {
                        self.push(Elt::Int(x.wrapping_add(y)))
                    } else {
                        Err(Error::Type)
                    }
                } else {
                    Err(Error::Type)
                }
            },
            Op::Eq => {
                match self.pop()? {
                    Elt::Int(ix) => {
                        match self.pop()? {
                            Elt::Int(iy) => self.push(Elt::Bool(ix == iy)),
                            _ => Err(Error::Type),
                        }
                    },
                    Elt::Bool(bx) => {
                        match self.pop()? {
                            Elt::Bool(by) => self.push(Elt::Bool(bx == by)),
                            _ => Err(Error::Type),
                        }
                    },
                }
            },
            Op::Neg => {
                match self.pop()? {
                    Elt::Int(i) => self.push(Elt::Int(0i32.wrapping_sub(i))),
                    Elt::Bool(b) => self.push(Elt::Bool(!b)),
                }
            },
            Op::Swap => {
                let x = self.pop()?;
                let y = self.pop()?;
                self.push(x)?;
                self.push(y)
            },
            Op::Rand => {
                match self.pop()? {
                    Elt::Int(x) => {
                        if x == 0 {
                            // A draw bound of 0 admits no value in [0, 0).
                            Err(Error::Type)
                        } else {
                            let raw: i32 = rand::random();
                            let m = normalize_draw(raw, x);
                            self.push(Elt::Int(m))
                        }
                    },
                    _ => Err(Error::Type),
                }
            },
            Op::Quit => Err(Error::Quit),
        }
    }
}

/// Brings a raw draw into the range governed by the bound `x`: `[0, x)` for
/// positive `x`, `(x, 0]` for negative `x`.
fn normalize_draw(raw: i32, x: i32) -> (m: i32)
    requires
        x != 0,
    ensures
        rand_in_range(m, x),
{
    let wide = ((raw as i64 % x as i64) + x as i64) % x as i64;
    wide as i32
}

} // verus!
