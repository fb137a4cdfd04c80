//! The text of a syntax tree: one line per node, drawn with box-drawing
//! branches.
use vstd::prelude::*;

use crate::fold::subtrees;
use crate::parser::{Expression, Ops, SExpr, SValue, Value, arg_pairs_view};
use crate::text::{
    char_debug, dec_text, push_char_debug, push_chars, push_dec_i64, push_str, push_str_debug,
    str_debug, string_of,
};

verus! {

/// The name of an operator, as `{:?}` prints it.
pub open spec fn op_text(op: Ops) -> Seq<char> {
    match op {
        Ops::Add => "Add"@,
        Ops::Sub => "Sub"@,
        Ops::Mul => "Mul"@,
        Ops::Div => "Div"@,
        Ops::Rem => "Rem"@,
        Ops::Eq => "Eq"@,
        Ops::NotEq => "NotEq"@,
        Ops::GreaterEq => "GreaterEq"@,
        Ops::LessEq => "LessEq"@,
        Ops::Greater => "Greater"@,
        Ops::Less => "Less"@,
        Ops::And => "And"@,
        Ops::Or => "Or"@,
        Ops::BitAnd => "BitAnd"@,
        Ops::BitOr => "BitOr"@,
        Ops::Xor => "Xor"@,
        Ops::Assign => "Assign"@,
        Ops::Inc => "Inc"@,
        Ops::Dec => "Dec"@,
        Ops::Neg => "Neg"@,
        Ops::Not => "Not"@,
    }
}

/// A value as `{:?}` prints it: the variant and its field.
pub open spec fn value_text(v: SValue) -> Seq<char> {
    match v {
        SValue::Integer(n) => "Integer("@ + dec_text(n as int) + ")"@,
        SValue::String(s) => "String("@ + str_debug(s) + ")"@,
        SValue::Char(c) => "Char("@ + char_debug(c) + ")"@,
        SValue::Boolean(b) => "Boolean("@ + (if b {
            "true"@
        } else {
            "false"@
        }) + ")"@,
        SValue::Variable(s) => "Variable("@ + str_debug(s) + ")"@,
    }
}

/// A (type, name) pair as `{:?}` prints it.
pub open spec fn pair_text(a: (Seq<char>, Seq<char>)) -> Seq<char> {
    "("@ + str_debug(a.0) + ", "@ + str_debug(a.1) + ")"@
}

/// The first `n` pairs, separated by ", ".
pub open spec fn pairs_prefix_text(args: Seq<(Seq<char>, Seq<char>)>, n: int) -> Seq<char>
    decreases n,
{
    if n <= 0 {
        Seq::empty()
    } else if n == 1 {
        pair_text(args[0])
    } else {
        pairs_prefix_text(args, n - 1) + ", "@ + pair_text(args[n - 1])
    }
}

/// A list of (type, name) pairs as `{:?}` prints it.
pub open spec fn pairs_text(args: Seq<(Seq<char>, Seq<char>)>) -> Seq<char> {
    "["@ + pairs_prefix_text(args, args.len() as int) + "]"@
}

/// An optional type name as `{:?}` prints it.
pub open spec fn opt_text(t: Option<Seq<char>>) -> Seq<char> {
    match t {
        Some(s) => "Some("@ + str_debug(s) + ")"@,
        None => "None"@,
    }
}

pub open spec fn branch(is_last: bool) -> Seq<char> {
    if is_last {
        "└── "@
    } else {
        "├── "@
    }
}

pub open spec fn indent(is_last: bool) -> Seq<char> {
    if is_last {
        "    "@
    } else {
        "│   "@
    }
}

/// The text of a tree whose lines start with `prefix`; `is_last` tells
/// whether it is the last child of its parent.
pub open spec fn tree_text(e: SExpr, prefix: Seq<char>, is_last: bool) -> Seq<char>
    decreases e,
{
    let head = prefix + branch(is_last);
    let ch = prefix + indent(is_last);
    match e {
        SExpr::Atom(v) => head + "Atom: "@ + value_text(v) + "\n"@,
        SExpr::Absolute(x) => head + "Absolute (|...|)\n"@ + tree_text(*x, ch, true),
        SExpr::Operation(op, items) => head + "Op: "@ + op_text(op) + "\n"@ + list_text(items, ch),
        SExpr::Block(items) => head + "Block\n"@ + list_text(items, ch),
        SExpr::VarDecl { typ, name, init, size } => {
            let t1 = head + "VarDecl: "@ + typ + " "@ + name + "\n"@;
            let t2 = match size {
                Some(sz) => prefix + "    Size:\n"@ + tree_text(*sz, ch, init is None),
                None => Seq::empty(),
            };
            let t3 = match init {
                Some(i) => prefix + "    Init:\n"@ + tree_text(*i, ch, true),
                None => Seq::empty(),
            };
            t1 + t2 + t3
        },
        SExpr::FuncDecl { name, args, ret_type, body } => head + "Fn: "@ + name + " (Args: "@
            + pairs_text(args) + ") -> "@ + opt_text(ret_type) + "\n"@ + tree_text(*body, ch, true),
        SExpr::FuncCall { caller, args } => head + "Call\n"@ + tree_text(*caller, ch, args.len() == 0)
            + list_text(args, ch),
        SExpr::If { cond, then_br, else_br } => {
            let t = head + "If\n"@ + tree_text(*cond, ch, false) + tree_text(
                *then_br,
                ch,
                else_br is None,
            );
            match else_br {
                Some(e2) => t + tree_text(*e2, ch, true),
                None => t,
            }
        },
        SExpr::While { cond, body } => head + "While\n"@ + tree_text(*cond, ch, false) + tree_text(
            *body,
            ch,
            true,
        ),
        SExpr::For { init, cond, step, body } => head + "For\n"@ + tree_text(*init, ch, false)
            + tree_text(*cond, ch, false) + tree_text(*step, ch, false) + tree_text(*body, ch, true),
        SExpr::ArrayInit(items) => head + "ArrayInit\n"@ + list_text(items, ch),
        SExpr::ArrayIndex { arr, index } => head + "Index Access\n"@ + tree_text(*arr, ch, false)
            + tree_text(*index, ch, true),
        SExpr::Cout(items) => head + "Cout\n"@ + list_text(items, ch),
        SExpr::Cin(items) => head + "Cin\n"@ + list_text(items, ch),
        SExpr::Return(x) => head + "Return\n"@ + match x {
            Some(b) => tree_text(*b, ch, true),
            None => Seq::empty(),
        },
    }
}

/// The texts of a list of children, the last one marked as last.
pub open spec fn list_text(items: Seq<SExpr>, prefix: Seq<char>) -> Seq<char>
    decreases items,
{
    if items.len() == 0 {
        Seq::empty()
    } else {
        tree_text(items[0], prefix, items.len() == 1) + list_text(
            items.subrange(1, items.len() as int),
            prefix,
        )
    }
}


fn push_op_text(out: &mut Vec<char>, op: Ops)
    ensures
        final(out)@ == old(out)@ + op_text(op),
{
    let t = match op {
        Ops::Add => "Add",
        Ops::Sub => "Sub",
        Ops::Mul => "Mul",
        Ops::Div => "Div",
        Ops::Rem => "Rem",
        Ops::Eq => "Eq",
        Ops::NotEq => "NotEq",
        Ops::GreaterEq => "GreaterEq",
        Ops::LessEq => "LessEq",
        Ops::Greater => "Greater",
        Ops::Less => "Less",
        Ops::And => "And",
        Ops::Or => "Or",
        Ops::BitAnd => "BitAnd",
        Ops::BitOr => "BitOr",
        Ops::Xor => "Xor",
        Ops::Assign => "Assign",
        Ops::Inc => "Inc",
        Ops::Dec => "Dec",
        Ops::Neg => "Neg",
        Ops::Not => "Not",
    };
    push_str(out, t);
}

fn push_value_text(out: &mut Vec<char>, v: &Value)
    ensures
        final(out)@ == old(out)@ + value_text(v@),
{
    let ghost start = out@;
    match v {
        Value::Integer(n) => {
            push_str(out, "Integer(");
            push_dec_i64(out, *n as i64);
        },
        Value::String(t) => {
            push_str(out, "String(");
            push_str_debug(out, t);
        },
        Value::Char(c) => {
            push_str(out, "Char(");
            push_char_debug(out, *c);
        },
        Value::Boolean(b) => {
            push_str(out, "Boolean(");
            if *b {
                push_str(out, "true");
            } else {
                push_str(out, "false");
            }
        },
        Value::Variable(t) => {
            push_str(out, "Variable(");
            push_str_debug(out, t);
        },
    }
    push_str(out, ")");
    assert(out@ =~= start + value_text(v@));
}

fn push_pairs_text(out: &mut Vec<char>, args: &Vec<(String, String)>)
    ensures
        final(out)@ == old(out)@ + pairs_text(arg_pairs_view(args@)),
{
    let ghost start = out@;
    let ghost all = arg_pairs_view(args@);
    push_str(out, "[");
    let mut i: usize = 0;
    while i < args.len()
        invariant
            i <= args@.len(),
            all == arg_pairs_view(args@),
            out@ == start + "["@ + pairs_prefix_text(all, i as int),
        decreases args@.len() - i,
    {
        let ghost before = out@;
        if i > 0 {
            push_str(out, ", ");
        }
        push_str(out, "(");
        push_str_debug(out, &args[i].0);
        push_str(out, ", ");
        push_str_debug(out, &args[i].1);
        push_str(out, ")");
        assert(all[i as int] == (args@[i as int].0@, args@[i as int].1@));
        if i > 0 {
            assert(out@ =~= before + ", "@ + pair_text(all[i as int]));
        } else {
            assert(out@ =~= before + pair_text(all[i as int]));
        }
        i = i + 1;
    }
    push_str(out, "]");
    assert(out@ =~= start + pairs_text(all));
}

fn push_opt_text(out: &mut Vec<char>, t: &Option<String>)
    ensures
        final(out)@ == old(out)@ + opt_text(match t {
            Some(s) => Some(s@),
            None => None,
        }),
{
    let ghost start = out@;
    match t {
        Some(s) => {
            push_str(out, "Some(");
            push_str_debug(out, s);
            push_str(out, ")");
        },
        None => {
            push_str(out, "None");
        },
    }
    assert(out@ =~= start + opt_text(match t {
        Some(s) => Some(s@),
        None => None,
    }));
}


/// Appends `prefix` and the branch of a node; gives the prefix of its
/// children.
fn push_head(s: &mut Vec<char>, prefix: &Vec<char>, is_last: bool) -> (ch: Vec<char>)
    ensures
        final(s)@ == old(s)@ + (prefix@ + branch(is_last)),
        ch@ == prefix@ + indent(is_last),
{
    let ghost start = s@;
    let mut ch_prefix = copy_chars(prefix);
    if is_last {
        push_str(&mut ch_prefix, "    ");
    } else {
        push_str(&mut ch_prefix, "│   ");
    }
    push_chars(s, prefix);
    if is_last {
        push_str(s, "└── ");
    } else {
        push_str(s, "├── ");
    }
    assert(s@ =~= start + (prefix@ + branch(is_last)));
    ch_prefix
}

fn copy_chars(s: &Vec<char>) -> (r: Vec<char>)
    ensures
        r@ == s@,
{
    let mut r: Vec<char> = Vec::new();
    push_chars(&mut r, s);
    r
}

impl Expression {
    /// Appends the text of this tree (see `tree_text`).
    fn build_string(&self, s: &mut Vec<char>, prefix: &Vec<char>, is_last: bool)
        ensures
            final(s)@ == old(s)@ + tree_text(self@, prefix@, is_last),
        decreases self, 1int,
    {
        match self {
            Expression::Atom(_) => self.build_atom(s, prefix, is_last),
            Expression::Absolute(_) => self.build_unary(s, prefix, is_last),
            Expression::Return(_) => self.build_unary(s, prefix, is_last),
            Expression::Operation(..) => self.build_items(s, prefix, is_last),
            Expression::Block(_) => self.build_items(s, prefix, is_last),
            Expression::ArrayInit(_) => self.build_items(s, prefix, is_last),
            Expression::Cout(_) => self.build_items(s, prefix, is_last),
            Expression::Cin(_) => self.build_items(s, prefix, is_last),
            Expression::VarDecl { .. } => self.build_var_decl(s, prefix, is_last),
            Expression::FuncDecl { .. } => self.build_func_decl(s, prefix, is_last),
            Expression::FuncCall { .. } => self.build_call(s, prefix, is_last),
            Expression::If { .. } => self.build_if(s, prefix, is_last),
            Expression::While { .. } => self.build_loop(s, prefix, is_last),
            Expression::For { .. } => self.build_loop(s, prefix, is_last),
            Expression::ArrayIndex { .. } => self.build_index(s, prefix, is_last),
        }
    }

    fn build_atom(&self, s: &mut Vec<char>, prefix: &Vec<char>, is_last: bool)
        requires
            self is Atom,
        ensures
            final(s)@ == old(s)@ + tree_text(self@, prefix@, is_last),
        decreases self, 0int,
    {
        let ghost start = s@;
        let ch_prefix = push_head(s, prefix, is_last);
        proof {
            crate::codegen::lemma_kids(*self);
        }
        match self {
            Expression::Atom(v) => {
                push_str(s, "Atom: ");
                push_value_text(s, v);
                push_str(s, "\n");
                assert(s@ =~= start + tree_text(self@, prefix@, is_last));
            },
            _ => {},
        }
    }

    fn build_unary(&self, s: &mut Vec<char>, prefix: &Vec<char>, is_last: bool)
        requires
            self is Absolute || self is Return,
        ensures
            final(s)@ == old(s)@ + tree_text(self@, prefix@, is_last),
        decreases self, 0int,
    {
        let ghost start = s@;
        let ch_prefix = push_head(s, prefix, is_last);
        proof {
            crate::codegen::lemma_kids(*self);
        }
        match self {
            Expression::Absolute(e) => {
                push_str(s, "Absolute (|...|)\n");
                e.build_string(s, &ch_prefix, true);
                assert(s@ =~= start + tree_text(self@, prefix@, is_last));
            },
            Expression::Return(e) => {
                push_str(s, "Return\n");
                if let Some(ex) = e {
                    ex.build_string(s, &ch_prefix, true);
                }
                assert(s@ =~= start + tree_text(self@, prefix@, is_last));
            },
            _ => {},
        }
    }

    fn build_items(&self, s: &mut Vec<char>, prefix: &Vec<char>, is_last: bool)
        requires
            self is Operation || self is Block || self is ArrayInit || self is Cout || self is Cin,
        ensures
            final(s)@ == old(s)@ + tree_text(self@, prefix@, is_last),
        decreases self, 0int,
    {
        let ghost start = s@;
        let ch_prefix = push_head(s, prefix, is_last);
        proof {
            crate::codegen::lemma_kids(*self);
        }
        match self {
            Expression::Operation(op, ch) => {
                push_str(s, "Op: ");
                push_op_text(s, *op);
                push_str(s, "\n");
                build_list(ch, s, &ch_prefix);
                assert(subtrees(ch@) == crate::codegen::kids(ch@));
                assert(s@ =~= start + tree_text(self@, prefix@, is_last));
            },
            Expression::Block(stmts) => {
                push_str(s, "Block\n");
                build_list(stmts, s, &ch_prefix);
                assert(subtrees(stmts@) == crate::codegen::kids(stmts@));
                assert(s@ =~= start + tree_text(self@, prefix@, is_last));
            },
            Expression::ArrayInit(items) => {
                push_str(s, "ArrayInit\n");
                build_list(items, s, &ch_prefix);
                assert(subtrees(items@) == crate::codegen::kids(items@));
                assert(s@ =~= start + tree_text(self@, prefix@, is_last));
            },
            Expression::Cout(items) => {
                push_str(s, "Cout\n");
                build_list(items, s, &ch_prefix);
                assert(subtrees(items@) == crate::codegen::kids(items@));
                assert(s@ =~= start + tree_text(self@, prefix@, is_last));
            },
            Expression::Cin(items) => {
                push_str(s, "Cin\n");
                build_list(items, s, &ch_prefix);
                assert(subtrees(items@) == crate::codegen::kids(items@));
                assert(s@ =~= start + tree_text(self@, prefix@, is_last));
            },
            _ => {},
        }
    }

    fn build_var_decl(&self, s: &mut Vec<char>, prefix: &Vec<char>, is_last: bool)
        requires
            self is VarDecl,
        ensures
            final(s)@ == old(s)@ + tree_text(self@, prefix@, is_last),
        decreases self, 0int,
    {
        let ghost start = s@;
        let ch_prefix = push_head(s, prefix, is_last);
        proof {
            crate::codegen::lemma_kids(*self);
        }
        match self {
            Expression::VarDecl { typ, name, init, size } => {
                let ghost h = s@;
                push_str(s, "VarDecl: ");
                push_str(s, typ.as_str());
                push_str(s, " ");
                push_str(s, name.as_str());
                push_str(s, "\n");
                let ghost t1 = s@;
                assert(t1 =~= h + ("VarDecl: "@ + typ@ + " "@ + name@ + "\n"@));
                let ghost p2 = match size {
                    Some(sz) => prefix@ + "    Size:\n"@ + tree_text((**sz)@, ch_prefix@, init is None),
                    None => Seq::<char>::empty(),
                };
                if let Some(sz) = size {
                    push_chars(s, prefix);
                    push_str(s, "    Size:\n");
                    sz.build_string(s, &ch_prefix, init.is_none());
                }
                assert(s@ =~= t1 + p2);
                let ghost t2 = s@;
                let ghost p3 = match init {
                    Some(i) => prefix@ + "    Init:\n"@ + tree_text((**i)@, ch_prefix@, true),
                    None => Seq::<char>::empty(),
                };
                if let Some(i) = init {
                    push_chars(s, prefix);
                    push_str(s, "    Init:\n");
                    i.build_string(s, &ch_prefix, true);
                }
                assert(s@ =~= t2 + p3);
                assert(tree_text(self@, prefix@, is_last) == (prefix@ + branch(is_last)) + (
                "VarDecl: "@ + typ@ + " "@ + name@ + "\n"@) + p2 + p3);
                assert(s@ =~= start + tree_text(self@, prefix@, is_last));
            },
            _ => {},
        }
    }

    fn build_func_decl(&self, s: &mut Vec<char>, prefix: &Vec<char>, is_last: bool)
        requires
            self is FuncDecl,
        ensures
            final(s)@ == old(s)@ + tree_text(self@, prefix@, is_last),
        decreases self, 0int,
    {
        let ghost start = s@;
        let ch_prefix = push_head(s, prefix, is_last);
        proof {
            crate::codegen::lemma_kids(*self);
        }
        match self {
            Expression::FuncDecl { name, args, ret_type, body } => {
                push_str(s, "Fn: ");
                push_str(s, name.as_str());
                push_str(s, " (Args: ");
                push_pairs_text(s, args);
                push_str(s, ") -> ");
                push_opt_text(s, ret_type);
                push_str(s, "\n");
                body.build_string(s, &ch_prefix, true);
                assert(s@ =~= start + tree_text(self@, prefix@, is_last));
            },
            _ => {},
        }
    }

    fn build_call(&self, s: &mut Vec<char>, prefix: &Vec<char>, is_last: bool)
        requires
            self is FuncCall,
        ensures
            final(s)@ == old(s)@ + tree_text(self@, prefix@, is_last),
        decreases self, 0int,
    {
        let ghost start = s@;
        let ch_prefix = push_head(s, prefix, is_last);
        proof {
            crate::codegen::lemma_kids(*self);
        }
        match self {
            Expression::FuncCall { caller, args } => {
                push_str(s, "Call\n");
                caller.build_string(s, &ch_prefix, args.len() == 0);
                build_list(args, s, &ch_prefix);
                assert(subtrees(args@) == crate::codegen::kids(args@));
                assert(s@ =~= start + tree_text(self@, prefix@, is_last));
            },
            _ => {},
        }
    }

    fn build_if(&self, s: &mut Vec<char>, prefix: &Vec<char>, is_last: bool)
        requires
            self is If,
        ensures
            final(s)@ == old(s)@ + tree_text(self@, prefix@, is_last),
        decreases self, 0int,
    {
        let ghost start = s@;
        let ch_prefix = push_head(s, prefix, is_last);
        proof {
            crate::codegen::lemma_kids(*self);
        }
        match self {
            Expression::If { cond, then_br, else_br } => {
                push_str(s, "If\n");
                cond.build_string(s, &ch_prefix, false);
                then_br.build_string(s, &ch_prefix, else_br.is_none());
                if let Some(e) = else_br {
                    e.build_string(s, &ch_prefix, true);
                }
                assert(s@ =~= start + tree_text(self@, prefix@, is_last));
            },
            _ => {},
        }
    }

    fn build_loop(&self, s: &mut Vec<char>, prefix: &Vec<char>, is_last: bool)
        requires
            self is While || self is For,
        ensures
            final(s)@ == old(s)@ + tree_text(self@, prefix@, is_last),
        decreases self, 0int,
    {
        let ghost start = s@;
        let ch_prefix = push_head(s, prefix, is_last);
        proof {
            crate::codegen::lemma_kids(*self);
        }
        match self {
            Expression::While { cond, body } => {
                push_str(s, "While\n");
                cond.build_string(s, &ch_prefix, false);
                body.build_string(s, &ch_prefix, true);
                assert(s@ =~= start + tree_text(self@, prefix@, is_last));
            },
            Expression::For { init, cond, step, body } => {
                push_str(s, "For\n");
                init.build_string(s, &ch_prefix, false);
                cond.build_string(s, &ch_prefix, false);
                step.build_string(s, &ch_prefix, false);
                body.build_string(s, &ch_prefix, true);
                assert(s@ =~= start + tree_text(self@, prefix@, is_last));
            },
            _ => {},
        }
    }

    fn build_index(&self, s: &mut Vec<char>, prefix: &Vec<char>, is_last: bool)
        requires
            self is ArrayIndex,
        ensures
            final(s)@ == old(s)@ + tree_text(self@, prefix@, is_last),
        decreases self, 0int,
    {
        let ghost start = s@;
        let ch_prefix = push_head(s, prefix, is_last);
        proof {
            crate::codegen::lemma_kids(*self);
        }
        match self {
            Expression::ArrayIndex { arr, index } => {
                push_str(s, "Index Access\n");
                arr.build_string(s, &ch_prefix, false);
                index.build_string(s, &ch_prefix, true);
                assert(s@ =~= start + tree_text(self@, prefix@, is_last));
            },
            _ => {},
        }
    }

    /// The text of the tree: a line "." and the tree below it.
    pub fn to_string(&self) -> (r: String)
        ensures
            r@ == ".\n"@ + tree_text(self@, Seq::empty(), true),
    {
        let mut s: Vec<char> = Vec::new();
        push_str(&mut s, ".\n");
        let prefix: Vec<char> = Vec::new();
        self.build_string(&mut s, &prefix, true);
        string_of(&s)
    }
}

/// Appends the texts of a list of children (see `list_text`).
fn build_list(items: &Vec<Expression>, s: &mut Vec<char>, prefix: &Vec<char>)
    ensures
        final(s)@ == old(s)@ + list_text(subtrees(items@), prefix@),
    decreases items,
{
    let ghost start = s@;
    let ghost all = subtrees(items@);
    let mut i: usize = 0;
    assert(all.subrange(0, all.len() as int) =~= all);
    while i < items.len()
        invariant
            i <= items@.len(),
            all == subtrees(items@),
            start + list_text(all, prefix@) == s@ + list_text(
                all.subrange(i as int, all.len() as int),
                prefix@,
            ),
        decreases items@.len() - i,
    {
        let ghost before = s@;
        let ghost rest = all.subrange(i as int, all.len() as int);
        assert(rest[0] == items@[i as int]@);
        assert(rest.subrange(1, rest.len() as int) =~= all.subrange(i + 1, all.len() as int));
        items[i].build_string(s, prefix, i == items.len() - 1);
        assert(before + list_text(rest, prefix@) =~= s@ + list_text(
            all.subrange(i + 1, all.len() as int),
            prefix@,
        ));
        i = i + 1;
    }
    assert(all.subrange(i as int, all.len() as int) =~= Seq::<SExpr>::empty());
    assert(s@ + Seq::<char>::empty() =~= s@);
}

} // verus!
