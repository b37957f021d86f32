//! Operations: the value type a token denotes, and the token parser.

use vstd::prelude::*;

verus! {

/// A numeric stack value.
///
/// The calculator's own logic never computes with floating-point numbers;
/// it only moves them, stores them and hands pairs of them back to the host
/// for arithmetic. A number therefore travels as plain data prepared by the
/// host when the literal is first read:
/// - `bits`: the IEEE-754 bit pattern of the value, its identity;
/// - `key`: the value truncated to an 8-bit unsigned integer (a saturating
///   cast), the form the register store addresses;
/// - `text`: the host's decimal rendering of the value, used for display.
#[derive(Debug, PartialEq)]
pub struct Number {
    pub bits: u64,
    pub key: u8,
    pub text: String,
}

/// Spec-level image of a `Number`.
pub ghost struct NumberV {
    pub bits: u64,
    pub key: u8,
    pub text: Seq<char>,
}

impl View for Number {
    type V = NumberV;

    open spec fn view(&self) -> NumberV {
        NumberV { bits: self.bits, key: self.key, text: self.text@ }
    }
}

impl Clone for Number {
    fn clone(&self) -> (r: Self)
        ensures
            r@ == self@,
    {
        Number { bits: self.bits, key: self.key, text: self.text.clone() }
    }
}

/// One operation of the calculator: a numeric literal, a binary arithmetic
/// operator, a stack operator, or a register operator.
#[derive(Debug, PartialEq)]
pub enum Op {
    /// A numeric literal.
    Num(Number),
    /// Binary: `a + b`.
    Add,
    /// Binary: `b - a`, where `a` was nearer the top.
    Sub,
    /// Binary: `b / a`.
    Div,
    /// Binary: `a * b`.
    Mul,
    /// Binary: `a` raised to the power `b`.
    Pow,
    /// Swap the top two numeric values.
    Swp,
    /// Duplicate the top numeric value.
    Dup,
    /// Discard the top value.
    Drp,
    /// Binary: logarithm of `b` in base `a`.
    Log,
    /// Pop a key, move the bound value out of the registers onto the stack.
    Get,
    /// Pop a key and a value, bind the value to the key in the registers.
    Sto,
}

/// Spec-level image of an `Op`.
pub ghost enum OpV {
    Num(NumberV),
    Add,
    Sub,
    Div,
    Mul,
    Pow,
    Swp,
    Dup,
    Drp,
    Log,
    Get,
    Sto,
}

impl View for Op {
    type V = OpV;

    open spec fn view(&self) -> OpV {
        match self {
            Op::Num(n) => OpV::Num(n@),
            Op::Add => OpV::Add,
            Op::Sub => OpV::Sub,
            Op::Div => OpV::Div,
            Op::Mul => OpV::Mul,
            Op::Pow => OpV::Pow,
            Op::Swp => OpV::Swp,
            Op::Dup => OpV::Dup,
            Op::Drp => OpV::Drp,
            Op::Log => OpV::Log,
            Op::Get => OpV::Get,
            Op::Sto => OpV::Sto,
        }
    }
}

impl Clone for Op {
    fn clone(&self) -> (r: Self)
        ensures
            r@ == self@,
    {
        match self {
            Op::Num(n) => Op::Num(n.clone()),
            Op::Add => Op::Add,
            Op::Sub => Op::Sub,
            Op::Div => Op::Div,
            Op::Mul => Op::Mul,
            Op::Pow => Op::Pow,
            Op::Swp => Op::Swp,
            Op::Dup => Op::Dup,
            Op::Drp => Op::Drp,
            Op::Log => Op::Log,
            Op::Get => Op::Get,
            Op::Sto => Op::Sto,
        }
    }
}

/// A word that names no operator and is no numeric literal either; it
/// carries the offending word unchanged.
#[derive(Debug, PartialEq)]
pub struct ParseError {
    pub word: String,
}

/// The operator, if any, that a single whitespace-free word denotes.
/// Exact and case-sensitive; both `*` and `x` denote multiplication.
pub open spec fn word_op(s: Seq<char>) -> Option<OpV> {
    if s == seq!['+'] {
        Some(OpV::Add)
    } else if s == seq!['-'] {
        Some(OpV::Sub)
    } else if s == seq!['*'] || s == seq!['x'] {
        Some(OpV::Mul)
    } else if s == seq!['/'] {
        Some(OpV::Div)
    } else if s == seq!['^'] {
        Some(OpV::Pow)
    } else if s == seq!['%'] {
        Some(OpV::Swp)
    } else if s == seq!['#'] {
        Some(OpV::Dup)
    } else if s == seq!['_'] {
        Some(OpV::Drp)
    } else if s == seq!['l', 'o', 'g'] {
        Some(OpV::Log)
    } else if s == seq!['g', 'e', 't'] {
        Some(OpV::Get)
    } else if s == seq!['s', 'e', 't'] {
        Some(OpV::Sto)
    } else {
        None
    }
}

/// Parse one whitespace-delimited word.
///
/// Operator words are recognized by the table `word_op` states. Any other
/// word is a numeric literal candidate: the host attempts it as a
/// floating-point literal and passes the outcome in `numeric` (`None` when
/// the word is no valid literal), since this crate holds no floats. A word
/// that is neither an operator nor a valid literal is reported back
/// unchanged in a `ParseError`.
pub fn parse(word: &str, numeric: Option<Number>) -> (r: Result<Op, ParseError>)
    ensures
        match word_op(word@) {
            Some(v) => r matches Ok(op) && op@ == v,
            None => match numeric {
                Some(n) => r matches Ok(op) && op@ == OpV::Num(n@),
                None => r matches Err(e) && e.word@ == word@,
            },
        },
{
    let len = word.unicode_len();
    if len == 1 {
        let c = word.get_char(0);
        proof {
            assert(word@ =~= seq![c]);
        }
        let m: Option<Op> = match c {
            '+' => Some(Op::Add),
            '-' => Some(Op::Sub),
            '*' => Some(Op::Mul),
            'x' => Some(Op::Mul),
            '/' => Some(Op::Div),
            '^' => Some(Op::Pow),
            '%' => Some(Op::Swp),
            '#' => Some(Op::Dup),
            '_' => Some(Op::Drp),
            _ => None,
        };
        if let Some(op) = m {
            return Ok(op);
        }
    } else if len == 3 {
        let c0 = word.get_char(0);
        let c1 = word.get_char(1);
        let c2 = word.get_char(2);
        proof {
            assert(word@ =~= seq![c0, c1, c2]);
        }
        if c0 == 'l' && c1 == 'o' && c2 == 'g' {
            return Ok(Op::Log);
        }
        if c0 == 'g' && c1 == 'e' && c2 == 't' {
            return Ok(Op::Get);
        }
        if c0 == 's' && c1 == 'e' && c2 == 't' {
            return Ok(Op::Sto);
        }
    }
    match numeric {
        Some(n) => Ok(Op::Num(n)),
        None => Err(ParseError { word: word.to_owned() }),
    }
}

} // verus!
