//! The emitted program: three-address instructions and their text.
use vstd::prelude::*;

verus! {

/// One piece of the emitted text: an instruction, or the line feed that
/// closes a statement. Temporaries and labels are named by number.
pub enum Instr {
    /// `__temp_k := lexeme`
    Leaf(nat, Seq<char>),
    /// `__temp_k := __temp_l op __temp_r`
    Binary(nat, nat, Seq<char>, nat),
    /// `name := __temp_k`, left open for the line feed that closes its
    /// statement
    Copy(Seq<char>, nat),
    /// the line feed after a statement
    LineEnd,
    /// `jmp_n:`
    Label(nat),
    /// `jump to jmp_n`
    Jump(nat),
    /// `if false <comparison> jump to jmp_n`
    IfFalse(Seq<char>, nat),
}

pub open spec fn digit_char(d: nat) -> char {
    if d == 0 {
        '0'
    } else if d == 1 {
        '1'
    } else if d == 2 {
        '2'
    } else if d == 3 {
        '3'
    } else if d == 4 {
        '4'
    } else if d == 5 {
        '5'
    } else if d == 6 {
        '6'
    } else if d == 7 {
        '7'
    } else if d == 8 {
        '8'
    } else {
        '9'
    }
}

/// The decimal digits of `n`, most significant first.
pub open spec fn decimal(n: nat) -> Seq<char>
    decreases n,
{
    if n < 10 {
        seq![digit_char(n)]
    } else {
        decimal(n / 10).push(digit_char(n % 10))
    }
}

pub open spec fn temp_name(k: nat) -> Seq<char> {
    "__temp_"@ + decimal(k)
}

pub open spec fn label_name(n: nat) -> Seq<char> {
    "jmp_"@ + decimal(n)
}

/// The line of one instruction, ending in a line feed.
pub open spec fn render(i: Instr) -> Seq<char> {
    match i {
        Instr::Leaf(k, lexeme) => temp_name(k) + " := "@ + lexeme + "\n"@,
        Instr::Binary(k, l, op, r) => temp_name(k) + " := "@ + temp_name(l) + " "@ + op + " "@ + temp_name(r)
            + "\n"@,
        Instr::Copy(name, k) => name + " := "@ + temp_name(k),
        Instr::LineEnd => "\n"@,
        Instr::Label(n) => label_name(n) + ":\n"@,
        Instr::Jump(n) => "jump to "@ + label_name(n) + "\n"@,
        Instr::IfFalse(c, n) => "if false "@ + c + " jump to "@ + label_name(n) + "\n"@,
    }
}

/// The text of a sequence of instructions, one line each.
pub open spec fn render_all(code: Seq<Instr>) -> Seq<char>
    decreases code.len(),
{
    if code.len() == 0 {
        Seq::empty()
    } else {
        render_all(code.drop_last()) + render(code.last())
    }
}

pub proof fn lemma_render_all_append(a: Seq<Instr>, b: Seq<Instr>)
    ensures
        render_all(a + b) == render_all(a) + render_all(b),
    decreases b.len(),
{
    if b.len() == 0 {
        assert(a + b =~= a);
        assert(render_all(b) =~= Seq::<char>::empty());
        assert(render_all(a) + render_all(b) =~= render_all(a));
    } else {
        assert((a + b).drop_last() =~= a + b.drop_last());
        lemma_render_all_append(a, b.drop_last());
        assert(render_all(a + b) == render_all(a + b.drop_last()) + render(b.last()));
        assert(render_all(a) + render_all(b.drop_last()) + render(b.last()) =~= render_all(a) + (render_all(
            b.drop_last(),
        ) + render(b.last())));
    }
}

pub proof fn lemma_render_one(i: Instr)
    ensures
        render_all(seq![i]) == render(i),
{
    assert(seq![i].drop_last() =~= Seq::<Instr>::empty());
    assert(render_all(Seq::<Instr>::empty()) + render(i) =~= render(i));
}

fn digit_text(d: u64) -> (r: &'static str)
    requires
        d < 10,
    ensures
        r@ == seq![digit_char(d as nat)],
{
    proof {
        reveal_strlit("0");
        reveal_strlit("1");
        reveal_strlit("2");
        reveal_strlit("3");
        reveal_strlit("4");
        reveal_strlit("5");
        reveal_strlit("6");
        reveal_strlit("7");
        reveal_strlit("8");
        reveal_strlit("9");
    }
    let r = if d == 0 {
        "0"
    } else if d == 1 {
        "1"
    } else if d == 2 {
        "2"
    } else if d == 3 {
        "3"
    } else if d == 4 {
        "4"
    } else if d == 5 {
        "5"
    } else if d == 6 {
        "6"
    } else if d == 7 {
        "7"
    } else if d == 8 {
        "8"
    } else {
        "9"
    };
    assert(r@ =~= seq![digit_char(d as nat)]);
    r
}

/// Appends the decimal digits of `n` to `out`.
pub fn push_decimal(out: &mut String, n: u64)
    ensures
        final(out)@ == old(out)@ + decimal(n as nat),
    decreases n,
{
    if n >= 10 {
        push_decimal(out, n / 10);
    }
    out.append(digit_text(n % 10));
    proof {
        if n >= 10 {
            assert(old(out)@ + decimal((n / 10) as nat) + seq![digit_char((n % 10) as nat)] =~= old(out)@
                + decimal(n as nat));
        } else {
            assert(decimal(n as nat) == seq![digit_char(n as nat)]);
        }
    }
}

/// Appends the name of temporary `k`.
pub fn push_temp(out: &mut String, k: u64)
    ensures
        final(out)@ == old(out)@ + temp_name(k as nat),
{
    out.append("__temp_");
    push_decimal(out, k);
    assert(old(out)@ + "__temp_"@ + decimal(k as nat) =~= old(out)@ + temp_name(k as nat));
}

/// Appends the name of label `n`.
pub fn push_label(out: &mut String, n: u64)
    ensures
        final(out)@ == old(out)@ + label_name(n as nat),
{
    out.append("jmp_");
    push_decimal(out, n);
    assert(old(out)@ + "jmp_"@ + decimal(n as nat) =~= old(out)@ + label_name(n as nat));
}

} // verus!
