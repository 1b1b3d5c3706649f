use vstd::prelude::*;

use crate::proto::strs;
use crate::text::to_chars;
use crate::user::{AccessLevel, Operation};

verus! {

/// One channel mode out of a mode string: the operation in force where it
/// stood (none before the first `+` or `-`), its letter and its argument.
pub struct Mode {
    pub op: Option<Operation>,
    pub letter: char,
    pub arg: Option<String>,
}

pub struct ModeView {
    pub op: Option<Operation>,
    pub letter: char,
    pub arg: Option<Seq<char>>,
}

impl Mode {
    pub open spec fn view(&self) -> ModeView {
        ModeView {
            op: self.op,
            letter: self.letter,
            arg: match self.arg {
                Some(a) => Some(a@),
                None => None,
            },
        }
    }
}

pub open spec fn mode_views(s: Seq<Mode>) -> Seq<ModeView> {
    s.map_values(|m: Mode| m.view())
}

/// Whether a channel mode letter takes an argument under `op`: the member
/// access modes and list modes always do, the key too, the limit only when set.
pub open spec fn takes_arg(letter: char, op: Option<Operation>) -> bool {
    letter == 'q' || letter == 'a' || letter == 'o' || letter == 'h' || letter == 'v' || letter
        == 'b' || letter == 'e' || letter == 'I' || letter == 'k' || (letter == 'l' && op == Some(
        Operation::Add,
    ))
}

/// The access level that a member mode letter stands for.
pub open spec fn access_of(letter: char) -> Option<AccessLevel> {
    if letter == 'q' {
        Some(AccessLevel::Owner)
    } else if letter == 'a' {
        Some(AccessLevel::Admin)
    } else if letter == 'o' {
        Some(AccessLevel::Oper)
    } else if letter == 'h' {
        Some(AccessLevel::HalfOp)
    } else if letter == 'v' {
        Some(AccessLevel::Voice)
    } else {
        None
    }
}

/// The state after reading the mode string `s` left to right: the operation in
/// force, how many arguments were used, and the modes read.
pub open spec fn parse_state(s: Seq<char>, args: Seq<Seq<char>>) -> (
    Option<Operation>,
    nat,
    Seq<ModeView>,
)
    decreases s.len(),
{
    if s.len() == 0 {
        (None, 0, Seq::empty())
    } else {
        let (op, used, out) = parse_state(s.drop_last(), args);
        let c = s.last();
        if c == '+' {
            (Some(Operation::Add), used, out)
        } else if c == '-' {
            (Some(Operation::Remove), used, out)
        } else if takes_arg(c, op) && used < args.len() {
            (op, used + 1, out.push(ModeView { op, letter: c, arg: Some(args[used as int]) }))
        } else {
            (op, used, out.push(ModeView { op, letter: c, arg: None }))
        }
    }
}

/// The modes of a mode string, with their arguments taken in order.
pub open spec fn parse_modes(s: Seq<char>, args: Seq<Seq<char>>) -> Seq<ModeView> {
    parse_state(s, args).2
}

pub fn takes_arg_exec(letter: char, op: Option<Operation>) -> (r: bool)
    ensures
        r == takes_arg(letter, op),
{
    let sets = match op {
        Some(Operation::Add) => true,
        _ => false,
    };
    letter == 'q' || letter == 'a' || letter == 'o' || letter == 'h' || letter == 'v' || letter
        == 'b' || letter == 'e' || letter == 'I' || letter == 'k' || (letter == 'l' && sets)
}

pub fn access_of_exec(letter: char) -> (r: Option<AccessLevel>)
    ensures
        r == access_of(letter),
{
    if letter == 'q' {
        Some(AccessLevel::Owner)
    } else if letter == 'a' {
        Some(AccessLevel::Admin)
    } else if letter == 'o' {
        Some(AccessLevel::Oper)
    } else if letter == 'h' {
        Some(AccessLevel::HalfOp)
    } else if letter == 'v' {
        Some(AccessLevel::Voice)
    } else {
        None
    }
}

fn push_mode(out: &mut Vec<Mode>, m: Mode)
    ensures
        mode_views(final(out)@) == mode_views(old(out)@).push(m.view()),
{
    out.push(m);
    assert(mode_views(out@) =~= mode_views(old(out)@).push(m.view()));
}

/// Reads a channel mode string such as `+ov-b` against its arguments.
pub fn parse(modes: &str, args: &Vec<String>) -> (r: Vec<Mode>)
    ensures
        mode_views(r@) == parse_modes(modes@, strs(args@)),
{
    let s = to_chars(modes);
    let mut out: Vec<Mode> = Vec::new();
    let mut op: Option<Operation> = None;
    let mut used: usize = 0;
    let mut i: usize = 0;
    let ghost a = strs(args@);
    while i < s.len()
        invariant
            s@ == modes@,
            a == strs(args@),
            i <= s@.len(),
            used <= args@.len(),
            parse_state(modes@.subrange(0, i as int), a) == (
                op,
                used as nat,
                mode_views(out@),
            ),
        decreases s@.len() - i,
    {
        let c = s[i];
        proof {
            assert(modes@.subrange(0, i + 1).drop_last() =~= modes@.subrange(0, i as int));
        }
        let with_arg = takes_arg_exec(c, op) && used < args.len();
        if c == '+' {
            op = Some(Operation::Add);
        } else if c == '-' {
            op = Some(Operation::Remove);
        } else if with_arg {
            let arg = args[used].clone();
            push_mode(&mut out, Mode { op, letter: c, arg: Some(arg) });
            used = used + 1;
        } else {
            push_mode(&mut out, Mode { op, letter: c, arg: None });
        }
        i = i + 1;
    }
    assert(modes@.subrange(0, s@.len() as int) =~= modes@);
    out
}

} // verus!
