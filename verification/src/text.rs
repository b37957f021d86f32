//! Display text: decimal register keys, operation tokens, and the fixed
//! minimum width a stack entry is padded to.

use vstd::prelude::*;
use vstd::string::StrSliceExecFns;
use vstd::string::StringExecFns;

use crate::engine::EnvV;
use crate::op::Op;
use crate::op::OpV;

verus! {

/// The decimal digit character for `d` in `0..10`.
pub open spec fn digit_char(d: int) -> char {
    if d == 0 {
        '0'
    } else if d == 1 {
        '1'
    } else if d == 2 {
        '2'
    } else if d == 3 {
        '3'
    } else if d == 4 {
        '4'
    } else if d == 5 {
        '5'
    } else if d == 6 {
        '6'
    } else if d == 7 {
        '7'
    } else if d == 8 {
        '8'
    } else {
        '9'
    }
}

/// The decimal text of a non-negative integer, without a sign and without
/// leading zeroes (a single `0` for zero).
pub open spec fn dec_text(n: int) -> Seq<char>
    decreases n,
{
    if n < 10 {
        seq![digit_char(n)]
    } else {
        dec_text(n / 10).push(digit_char(n % 10))
    }
}

/// The display text of one operation: a numeric shows its host-prepared
/// decimal text, an operator its token word.
pub open spec fn op_text(o: OpV) -> Seq<char> {
    match o {
        OpV::Num(n) => n.text,
        OpV::Add => "+"@,
        OpV::Sub => "-"@,
        OpV::Div => "/"@,
        OpV::Mul => "*"@,
        OpV::Pow => "^"@,
        OpV::Swp => "%"@,
        OpV::Dup => "#"@,
        OpV::Drp => "_"@,
        OpV::Log => "log"@,
        OpV::Get => "get"@,
        OpV::Sto => "set"@,
    }
}

/// `s` right-aligned to a minimum width of five characters: short texts get
/// spaces in front, longer ones stand as they are.
pub open spec fn pad5(s: Seq<char>) -> Seq<char> {
    if s.len() >= 5 {
        s
    } else {
        Seq::new((5 - s.len()) as nat, |i: int| ' ') + s
    }
}

/// One rendered register binding.
pub open spec fn reg_text(k: u8, v: OpV) -> Seq<char> {
    "("@ + dec_text(k as int) + ": "@ + op_text(v) + ") "@
}

/// The rendered register bindings whose keys lie below `upto`, in ascending
/// key order.
pub open spec fn regs_text(m: Map<u8, OpV>, upto: int) -> Seq<char>
    decreases upto,
{
    if upto <= 0 {
        Seq::empty()
    } else {
        regs_text(m, upto - 1) + if m.contains_key((upto - 1) as u8) {
            reg_text((upto - 1) as u8, m[(upto - 1) as u8])
        } else {
            Seq::<char>::empty()
        }
    }
}

/// The first `upto` stack entries rendered left-to-right, each padded to the
/// fixed minimum width, separated by single spaces.
pub open spec fn stack_text(s: Seq<OpV>, upto: int) -> Seq<char>
    decreases upto,
{
    if upto <= 0 {
        Seq::empty()
    } else {
        stack_text(s, upto - 1) + (if upto == 1 {
            Seq::<char>::empty()
        } else {
            " "@
        }) + pad5(op_text(s[upto - 1]))
    }
}

/// The full rendering of an engine: the register bindings in ascending key
/// order, then the stack.
pub open spec fn render_text(e: EnvV) -> Seq<char> {
    regs_text(e.regs, 256) + stack_text(e.stack, e.stack.len() as int)
}

/// Does `w` hold no space?
pub open spec fn space_free(w: Seq<char>) -> bool {
    forall|i: int| 0 <= i < w.len() ==> w[i] != ' '
}

/// The index of the first space of `s`, or `s.len()` if there is none.
pub open spec fn first_space(s: Seq<char>) -> int
    decreases s.len(),
{
    if s.len() == 0 {
        0
    } else if s[0] == ' ' {
        0
    } else {
        1 + first_space(s.drop_first())
    }
}

proof fn lemma_first_space_bounds(s: Seq<char>)
    ensures
        0 <= first_space(s) <= s.len(),
        forall|i: int| 0 <= i < first_space(s) ==> s[i] != ' ',
        first_space(s) < s.len() ==> s[first_space(s)] == ' ',
    decreases s.len(),
{
    if s.len() > 0 && s[0] != ' ' {
        lemma_first_space_bounds(s.drop_first());
        assert forall|i: int| 0 <= i < first_space(s) implies s[i] != ' ' by {
            if i > 0 {
                assert(s.drop_first()[i - 1] == s[i]);
            }
        }
        if first_space(s) < s.len() {
            assert(s.drop_first()[first_space(s) - 1] == s[first_space(s)]);
        }
    }
}

proof fn lemma_first_space_at(s: Seq<char>, j: int)
    requires
        0 <= j <= s.len(),
        forall|i: int| 0 <= i < j ==> s[i] != ' ',
        j < s.len() ==> s[j] == ' ',
    ensures
        first_space(s) == j,
    decreases s.len(),
{
    if s.len() == 0 {
    } else if s[0] == ' ' {
        assert(j == 0);
    } else {
        assert(j >= 1);
        assert forall|i: int| 0 <= i < j - 1 implies s.drop_first()[i] != ' ' by {
            assert(s.drop_first()[i] == s[i + 1]);
        }
        if j - 1 < s.drop_first().len() {
            assert(s.drop_first()[j - 1] == s[j]);
        }
        lemma_first_space_at(s.drop_first(), j - 1);
    }
}

/// The space-separated words of `s`, in order, leading, trailing and
/// repeated spaces ignored.
pub open spec fn split_sp(s: Seq<char>) -> Seq<Seq<char>>
    decreases s.len(),
    via split_sp_dec
{
    if s.len() == 0 {
        Seq::empty()
    } else if s[0] == ' ' {
        split_sp(s.drop_first())
    } else {
        seq![s.take(first_space(s))] + split_sp(s.skip(first_space(s)))
    }
}

#[via_fn]
proof fn split_sp_dec(s: Seq<char>) {
    if s.len() > 0 && s[0] != ' ' {
        lemma_first_space_bounds(s);
    }
}

proof fn lemma_split_concat(x: Seq<char>, y: Seq<char>)
    requires
        y.len() > 0,
        y[0] == ' ',
    ensures
        split_sp(x + y) =~= split_sp(x) + split_sp(y),
    decreases x.len(),
{
    if x.len() == 0 {
        assert(x + y =~= y);
        assert(split_sp(x) =~= Seq::<Seq<char>>::empty());
    } else if x[0] == ' ' {
        assert((x + y)[0] == ' ');
        assert((x + y).drop_first() =~= x.drop_first() + y);
        lemma_split_concat(x.drop_first(), y);
    } else {
        let j = first_space(x);
        lemma_first_space_bounds(x);
        assert forall|i: int| 0 <= i < j implies (x + y)[i] != ' ' by {
            assert((x + y)[i] == x[i]);
        }
        if j < x.len() {
            assert((x + y)[j] == x[j]);
        } else {
            assert((x + y)[j] == y[0]);
        }
        lemma_first_space_at(x + y, j);
        assert((x + y).take(j) =~= x.take(j));
        assert((x + y).skip(j) =~= x.skip(j) + y);
        lemma_split_concat(x.skip(j), y);
        assert(split_sp(x + y) =~= seq![x.take(j)] + (split_sp(x.skip(j)) + split_sp(y)));
        assert(split_sp(x) =~= seq![x.take(j)] + split_sp(x.skip(j)));
        assert(seq![x.take(j)] + (split_sp(x.skip(j)) + split_sp(y)) =~= (seq![x.take(j)]
            + split_sp(x.skip(j))) + split_sp(y));
    }
}

proof fn lemma_split_word(p: Seq<char>, w: Seq<char>)
    requires
        forall|i: int| 0 <= i < p.len() ==> p[i] == ' ',
        w.len() > 0,
        space_free(w),
    ensures
        split_sp(p + w) =~= seq![w],
    decreases p.len(),
{
    if p.len() == 0 {
        assert(p + w =~= w);
        assert(w[0] != ' ');
        lemma_first_space_at(w, w.len() as int);
        assert(w.take(w.len() as int) =~= w);
        assert(w.skip(w.len() as int) =~= Seq::<char>::empty());
        assert(split_sp(Seq::<char>::empty()) =~= Seq::<Seq<char>>::empty());
        assert(split_sp(w) =~= seq![w] + Seq::<Seq<char>>::empty());
        assert(seq![w] + Seq::<Seq<char>>::empty() =~= seq![w]);
    } else {
        assert((p + w)[0] == p[0]);
        assert((p + w).drop_first() =~= p.drop_first() + w);
        assert forall|i: int| 0 <= i < p.drop_first().len() implies p.drop_first()[i]
            == ' ' by {
            assert(p.drop_first()[i] == p[i + 1]);
        }
        lemma_split_word(p.drop_first(), w);
    }
}

proof fn lemma_pad5_split(w: Seq<char>)
    requires
        w.len() > 0,
        space_free(w),
    ensures
        split_sp(pad5(w)) =~= seq![w],
{
    if w.len() >= 5 {
        lemma_split_word(Seq::empty(), w);
        assert(Seq::empty() + w =~= w);
    } else {
        let p = Seq::new((5 - w.len()) as nat, |i: int| ' ');
        lemma_split_word(p, w);
    }
}

proof fn lemma_stack_tokens(s: Seq<OpV>, n: int)
    requires
        0 <= n <= s.len(),
        forall|i: int| 0 <= i < s.len() ==> (#[trigger] op_text(s[i])).len() > 0,
        forall|i: int| 0 <= i < s.len() ==> space_free(#[trigger] op_text(s[i])),
    ensures
        split_sp(stack_text(s, n)) =~= s.take(n).map_values(|o: OpV| op_text(o)),
    decreases n,
{
    let f = |o: OpV| op_text(o);
    if n == 0 {
        assert(s.take(0).map_values(f) =~= Seq::<Seq<char>>::empty());
    } else if n == 1 {
        let w = op_text(s[0]);
        assert(stack_text(s, 0) =~= Seq::<char>::empty());
        assert(stack_text(s, 1) =~= pad5(w));
        lemma_pad5_split(w);
        assert(s.take(1).map_values(f) =~= seq![w]);
    } else {
        lemma_stack_tokens(s, n - 1);
        let a = stack_text(s, n - 1);
        let w = op_text(s[n - 1]);
        reveal_strlit(" ");
        assert(stack_text(s, n) =~= a + (" "@ + pad5(w)));
        if w.len() >= 5 {
            assert(" "@ + pad5(w) =~= (" "@ + Seq::<char>::empty()) + w);
            assert forall|i: int| 0 <= i < (" "@ + Seq::<char>::empty()).len() implies (" "@
                + Seq::<char>::empty())[i] == ' ' by {}
            lemma_split_word(" "@ + Seq::<char>::empty(), w);
        } else {
            let p = Seq::new((5 - w.len()) as nat, |i: int| ' ');
            assert(" "@ + pad5(w) =~= (" "@ + p) + w);
            assert forall|i: int| 0 <= i < (" "@ + p).len() implies (" "@ + p)[i] == ' ' by {}
            lemma_split_word(" "@ + p, w);
        }
        assert((" "@ + pad5(w))[0] == ' ');
        lemma_split_concat(a, " "@ + pad5(w));
        assert(split_sp(stack_text(s, n)) =~= split_sp(a) + seq![w]);
        assert(s.take(n).map_values(f) =~= s.take(n - 1).map_values(f).push(w));
        assert(s.take(n - 1).map_values(f).push(w) =~= s.take(n - 1).map_values(f) + seq![w]);
    }
}

proof fn lemma_regs_text_unbound(m: Map<u8, OpV>, n: int)
    requires
        forall|k: u8| !m.contains_key(k),
    ensures
        regs_text(m, n) =~= Seq::<char>::empty(),
    decreases n,
{
    if n > 0 {
        lemma_regs_text_unbound(m, n - 1);
        assert(regs_text(m, n) =~= regs_text(m, n - 1) + Seq::<char>::empty());
    }
}

/// Every operator token is nonempty and holds no space, so only the
/// host-prepared texts of numeric entries matter to the round trip below.
pub proof fn lemma_op_token_space_free(o: OpV)
    requires
        !(o is Num),
    ensures
        op_text(o).len() > 0,
        space_free(op_text(o)),
{
    reveal_strlit("+");
    reveal_strlit("-");
    reveal_strlit("/");
    reveal_strlit("*");
    reveal_strlit("^");
    reveal_strlit("%");
    reveal_strlit("#");
    reveal_strlit("_");
    reveal_strlit("log");
    reveal_strlit("get");
    reveal_strlit("set");
}

/// Round trip of the rendering: splitting the rendered stack back into
/// space-separated tokens recovers exactly the display text of every stack
/// entry — the same count, the same texts, the same order — as long as
/// every entry's text is nonempty and holds no space, as a decimal numeric
/// text does. Padding and separators add nothing and lose nothing.
pub proof fn lemma_stack_round_trip(s: Seq<OpV>)
    requires
        forall|i: int| 0 <= i < s.len() ==> (#[trigger] op_text(s[i])).len() > 0,
        forall|i: int| 0 <= i < s.len() ==> space_free(#[trigger] op_text(s[i])),
    ensures
        split_sp(stack_text(s, s.len() as int)) == s.map_values(|o: OpV| op_text(o)),
{
    lemma_stack_tokens(s, s.len() as int);
    assert(s.take(s.len() as int) =~= s);
    assert(split_sp(stack_text(s, s.len() as int)) =~= s.map_values(|o: OpV| op_text(o)));
}

/// Round trip of the rendering of a whole engine without register bindings:
/// the rendering is then the stack portion alone, and re-tokenizing it
/// recovers the stack's display texts exactly.
pub proof fn lemma_render_round_trip(e: EnvV)
    requires
        forall|k: u8| !e.regs.contains_key(k),
        forall|i: int| 0 <= i < e.stack.len() ==> (#[trigger] op_text(e.stack[i])).len() > 0,
        forall|i: int| 0 <= i < e.stack.len() ==> space_free(#[trigger] op_text(e.stack[i])),
    ensures
        split_sp(render_text(e)) == e.stack.map_values(|o: OpV| op_text(o)),
{
    lemma_regs_text_unbound(e.regs, 256);
    assert(render_text(e) =~= stack_text(e.stack, e.stack.len() as int));
    lemma_stack_round_trip(e.stack);
}

pub(crate) fn digit_str(d: u8) -> (r: &'static str)
    requires
        d < 10,
    ensures
        r@ == seq![digit_char(d as int)],
{
    proof {
        reveal_strlit("0");
        reveal_strlit("1");
        reveal_strlit("2");
        reveal_strlit("3");
        reveal_strlit("4");
        reveal_strlit("5");
        reveal_strlit("6");
        reveal_strlit("7");
        reveal_strlit("8");
        reveal_strlit("9");
    }
    let r: &'static str = match d {
        0 => "0",
        1 => "1",
        2 => "2",
        3 => "3",
        4 => "4",
        5 => "5",
        6 => "6",
        7 => "7",
        8 => "8",
        _ => "9",
    };
    proof {
        assert(r@ =~= seq![digit_char(d as int)]);
    }
    r
}

/// The decimal text of an 8-bit register key.
pub fn key_text(k: u8) -> (r: String)
    ensures
        r@ == dec_text(k as int),
    decreases k,
{
    if k < 10 {
        digit_str(k).to_owned()
    } else {
        let mut s = key_text(k / 10);
        s.append(digit_str(k % 10));
        proof {
            assert(s@ =~= dec_text((k / 10) as int).push(digit_char((k % 10) as int)));
        }
        s
    }
}

/// The display text of one operation.
pub fn op_str(o: &Op) -> (r: String)
    ensures
        r@ == op_text(o@),
{
    match o {
        Op::Num(n) => n.text.clone(),
        Op::Add => "+".to_owned(),
        Op::Sub => "-".to_owned(),
        Op::Div => "/".to_owned(),
        Op::Mul => "*".to_owned(),
        Op::Pow => "^".to_owned(),
        Op::Swp => "%".to_owned(),
        Op::Dup => "#".to_owned(),
        Op::Drp => "_".to_owned(),
        Op::Log => "log".to_owned(),
        Op::Get => "get".to_owned(),
        Op::Sto => "set".to_owned(),
    }
}

/// Right-align `s` to the fixed minimum width of five characters.
pub fn padded(s: String) -> (r: String)
    ensures
        r@ == pad5(s@),
{
    let n = s.unicode_len();
    if n >= 5 {
        s
    } else {
        let sp: &str = match n {
            0 => "     ",
            1 => "    ",
            2 => "   ",
            3 => "  ",
            _ => " ",
        };
        proof {
            reveal_strlit("     ");
            reveal_strlit("    ");
            reveal_strlit("   ");
            reveal_strlit("  ");
            reveal_strlit(" ");
            assert(sp@ =~= Seq::new((5 - s@.len()) as nat, |i: int| ' '));
        }
        let mut r = sp.to_owned();
        r.append(s.as_str());
        r
    }
}

} // verus!
