//! The instruction encoder: map a normalized line, with aliases and
//! labels substituted, to the hexadecimal word (or raw data bytes) it
//! encodes.
//!
//! Dispatch goes by token count, then mnemonic, and for `SE`, `SNE`,
//! `ADD` and `LD` by whether the final operand carries the register
//! marker `V`. Each shape fills a fixed four-nibble template.

use vstd::prelude::*;
use crate::chars::digit_of;
use crate::chars::seq_contains;
use crate::chars::upper_seq;
use crate::chars::vec_contains;
use crate::errors::AsmError;
use crate::errors::ErrS;
use crate::labels::AliasLabel;
use crate::labels::AliasModel;
use crate::labels::JumpLabel;
use crate::labels::LabelModel;
use crate::labels::aliases_view;
use crate::labels::labels_view;
use crate::labels::tok_eq_str;
use crate::numbers::hex_render;
use crate::numbers::num_val;
use crate::numbers::render_hex;
use crate::numbers::num;
use crate::registers::reg_val;
use crate::registers::register;
use crate::tokens::tokens_of;
use crate::tokens::views_of;
use crate::tokens::split_ws;

verus! {

/// The mnemonics of the instruction set.
pub open spec fn is_mnemonic(t: Seq<char>) -> bool {
    ||| t == "CLS"@
    ||| t == "RET"@
    ||| t == "SYS"@
    ||| t == "JP"@
    ||| t == "CALL"@
    ||| t == "SE"@
    ||| t == "SNE"@
    ||| t == "LD"@
    ||| t == "ADD"@
    ||| t == "OR"@
    ||| t == "AND"@
    ||| t == "XOR"@
    ||| t == "SUB"@
    ||| t == "SHR"@
    ||| t == "SUBN"@
    ||| t == "SHL"@
    ||| t == "RND"@
    ||| t == "DRW"@
    ||| t == "SKP"@
    ||| t == "SKNP"@
}

/// Exec test whether a token is a mnemonic.
pub fn mnemonic(t: &Vec<char>) -> (r: bool)
    ensures
        r == is_mnemonic(t@),
{
    tok_eq_str(t, "CLS") || tok_eq_str(t, "RET") || tok_eq_str(t, "SYS") || tok_eq_str(t, "JP")
        || tok_eq_str(t, "CALL") || tok_eq_str(t, "SE") || tok_eq_str(t, "SNE") || tok_eq_str(
        t,
        "LD",
    ) || tok_eq_str(t, "ADD") || tok_eq_str(t, "OR") || tok_eq_str(t, "AND") || tok_eq_str(
        t,
        "XOR",
    ) || tok_eq_str(t, "SUB") || tok_eq_str(t, "SHR") || tok_eq_str(t, "SUBN") || tok_eq_str(
        t,
        "SHL",
    ) || tok_eq_str(t, "RND") || tok_eq_str(t, "DRW") || tok_eq_str(t, "SKP") || tok_eq_str(
        t,
        "SKNP",
    )
}

/// Compare two tokens.
pub fn tok_eq(a: &Vec<char>, b: &Vec<char>) -> (r: bool)
    ensures
        r == (a@ == b@),
{
    if a.len() != b.len() {
        return false;
    }
    let mut i: usize = 0;
    while i < a.len()
        invariant
            0 <= i <= a@.len(),
            a@.len() == b@.len(),
            forall|j: int| 0 <= j < i ==> a@[j] == b@[j],
        decreases a@.len() - i,
    {
        if a[i] != b[i] {
            return false;
        }
        i += 1;
    }
    proof {
        assert(a@ =~= b@);
    }
    true
}

/// One-shot alias substitution: the first alias whose `from` matches
/// wins; a token no alias matches is unchanged.
pub open spec fn alias_subst(t: Seq<char>, aliases: Seq<AliasModel>) -> Seq<char>
    decreases aliases.len(),
{
    if aliases.len() == 0 {
        t
    } else if t == aliases[0].from {
        aliases[0].to
    } else {
        alias_subst(t, aliases.drop_first())
    }
}

/// One-shot label substitution: the first label whose name matches puts
/// its cached address string in; a token no label matches is unchanged.
pub open spec fn label_subst(t: Seq<char>, labels: Seq<LabelModel>) -> Seq<char>
    decreases labels.len(),
{
    if labels.len() == 0 {
        t
    } else if t == labels[0].name {
        labels[0].address_str
    } else {
        label_subst(t, labels.drop_first())
    }
}

/// Alias substitution, then label substitution on its result.
pub open spec fn subst_tok(t: Seq<char>, aliases: Seq<AliasModel>, labels: Seq<LabelModel>) -> Seq<
    char,
> {
    label_subst(alias_subst(t, aliases), labels)
}

/// The first label with this name, if any.
pub open spec fn label_lookup(name: Seq<char>, labels: Seq<LabelModel>) -> Option<LabelModel>
    decreases labels.len(),
{
    if labels.len() == 0 {
        None
    } else if labels[0].name == name {
        Some(labels[0])
    } else {
        label_lookup(name, labels.drop_first())
    }
}

proof fn lemma_alias_subst_skip(t: Seq<char>, aliases: Seq<AliasModel>, i: int)
    requires
        0 <= i <= aliases.len(),
        forall|j: int| 0 <= j < i ==> t != #[trigger] aliases[j].from,
    ensures
        alias_subst(t, aliases) == alias_subst(t, aliases.skip(i)),
    decreases i,
{
    if i > 0 {
        lemma_alias_subst_skip(t, aliases, i - 1);
        assert(aliases.skip(i - 1).drop_first() =~= aliases.skip(i));
        assert(aliases.skip(i - 1)[0] == aliases[i - 1]);
    } else {
        assert(aliases.skip(0) =~= aliases);
    }
}

proof fn lemma_label_subst_skip(t: Seq<char>, labels: Seq<LabelModel>, i: int)
    requires
        0 <= i <= labels.len(),
        forall|j: int| 0 <= j < i ==> t != #[trigger] labels[j].name,
    ensures
        label_subst(t, labels) == label_subst(t, labels.skip(i)),
    decreases i,
{
    if i > 0 {
        lemma_label_subst_skip(t, labels, i - 1);
        assert(labels.skip(i - 1).drop_first() =~= labels.skip(i));
        assert(labels.skip(i - 1)[0] == labels[i - 1]);
    } else {
        assert(labels.skip(0) =~= labels);
    }
}

proof fn lemma_label_lookup_skip(name: Seq<char>, labels: Seq<LabelModel>, i: int)
    requires
        0 <= i <= labels.len(),
        forall|j: int| 0 <= j < i ==> name != #[trigger] labels[j].name,
    ensures
        label_lookup(name, labels) == label_lookup(name, labels.skip(i)),
    decreases i,
{
    if i > 0 {
        lemma_label_lookup_skip(name, labels, i - 1);
        assert(labels.skip(i - 1).drop_first() =~= labels.skip(i));
        assert(labels.skip(i - 1)[0] == labels[i - 1]);
    } else {
        assert(labels.skip(0) =~= labels);
    }
}

/// Apply the alias table to one token.
pub fn subst_alias_tok(t: &Vec<char>, aliases: &Vec<AliasLabel>) -> (r: Vec<char>)
    ensures
        r@ == alias_subst(t@, aliases_view(aliases@)),
{
    let ghost av = aliases_view(aliases@);
    let mut i: usize = 0;
    while i < aliases.len()
        invariant
            0 <= i <= aliases@.len(),
            av == aliases_view(aliases@),
            forall|j: int| 0 <= j < i ==> t@ != #[trigger] av[j].from,
        decreases aliases@.len() - i,
    {
        proof {
            assert(av[i as int] == aliases@[i as int]@);
        }
        if tok_eq(t, &aliases[i].from) {
            proof {
                lemma_alias_subst_skip(t@, av, i as int);
                assert(av.skip(i as int)[0] == av[i as int]);
            }
            return aliases[i].to.clone();
        }
        i += 1;
    }
    proof {
        lemma_alias_subst_skip(t@, av, i as int);
        assert(av.skip(i as int).len() == 0);
    }
    t.clone()
}

/// Apply the label table to one token.
pub fn subst_label_tok(t: &Vec<char>, labels: &Vec<JumpLabel>) -> (r: Vec<char>)
    ensures
        r@ == label_subst(t@, labels_view(labels@)),
{
    let ghost lv = labels_view(labels@);
    let mut i: usize = 0;
    while i < labels.len()
        invariant
            0 <= i <= labels@.len(),
            lv == labels_view(labels@),
            forall|j: int| 0 <= j < i ==> t@ != #[trigger] lv[j].name,
        decreases labels@.len() - i,
    {
        proof {
            assert(lv[i as int] == labels@[i as int]@);
        }
        if tok_eq(t, &labels[i].name) {
            proof {
                lemma_label_subst_skip(t@, lv, i as int);
                assert(lv.skip(i as int)[0] == lv[i as int]);
            }
            return labels[i].address_str.clone();
        }
        i += 1;
    }
    proof {
        lemma_label_subst_skip(t@, lv, i as int);
        assert(lv.skip(i as int).len() == 0);
    }
    t.clone()
}

/// A register operand, rendered as its digit, or `InvalidRegister`.
pub open spec fn reg_or_err(t: Seq<char>) -> Result<char, ErrS> {
    match reg_val(upper_seq(t)) {
        Some(v) => Ok(digit_of(v)),
        None => Err(ErrS::InvalidRegister(t)),
    }
}

/// A numeric operand, rendered at width `w`, or `InvalidNumber`.
pub open spec fn num_or_err(t: Seq<char>, w: nat) -> Result<Seq<char>, ErrS> {
    match num_val(upper_seq(t)) {
        Some(v) => Ok(hex_render(v, w)),
        None => Err(ErrS::InvalidNumber(t)),
    }
}

/// Template `<prefix><reg><reg><suffix>`.
pub open spec fn op_rr(prefix: char, t1: Seq<char>, t2: Seq<char>, suffix: char) -> Result<
    Seq<char>,
    ErrS,
> {
    match reg_or_err(t1) {
        Err(e) => Err(e),
        Ok(a) => match reg_or_err(t2) {
            Err(e) => Err(e),
            Ok(b) => Ok(seq![prefix, a, b, suffix]),
        },
    }
}

/// Template `<prefix><reg><nn>`.
pub open spec fn op_rn(prefix: char, t1: Seq<char>, t2: Seq<char>) -> Result<Seq<char>, ErrS> {
    match reg_or_err(t1) {
        Err(e) => Err(e),
        Ok(a) => match num_or_err(t2, 2) {
            Err(e) => Err(e),
            Ok(h) => Ok(seq![prefix, a] + h),
        },
    }
}

/// Template `<prefix><nnn>`.
pub open spec fn op_n3(prefix: char, t: Seq<char>) -> Result<Seq<char>, ErrS> {
    match num_or_err(t, 3) {
        Err(e) => Err(e),
        Ok(h) => Ok(seq![prefix] + h),
    }
}

/// Template `<prefix><reg><s1><s2>`.
pub open spec fn op_r(prefix: char, t: Seq<char>, s1: char, s2: char) -> Result<Seq<char>, ErrS> {
    match reg_or_err(t) {
        Err(e) => Err(e),
        Ok(a) => Ok(seq![prefix, a, s1, s2]),
    }
}

/// Does the token open a raw data line: a hexadecimal, binary or legacy
/// numeric prefix?
pub open spec fn is_data_head(t: Seq<char>) -> bool {
    ||| (t.len() >= 2 && t[0] == '0' && t[1] == 'X')
    ||| (t.len() >= 2 && t[0] == '0' && t[1] == 'B')
    ||| (t.len() >= 1 && t[0] == '$')
}

/// A raw data line: every token normalized to two hexadecimal digits,
/// concatenated; the first failing token's error otherwise.
pub open spec fn data_spec(ts: Seq<Seq<char>>) -> Result<Seq<char>, ErrS>
    decreases ts.len(),
{
    if ts.len() == 0 {
        Ok(Seq::empty())
    } else {
        match num_or_err(ts[0], 2) {
            Err(e) => Err(e),
            Ok(h) => match data_spec(ts.drop_first()) {
                Err(e) => Err(e),
                Ok(rest) => Ok(h + rest),
            },
        }
    }
}

/// Mnemonic dispatch on substituted tokens: the opcode table.
pub open spec fn dispatch_spec(ts: Seq<Seq<char>>) -> Result<Seq<char>, ErrS> {
    if ts.len() == 1 {
        if ts[0] == "CLS"@ {
            Ok(seq!['0', '0', 'E', '0'])
        } else if ts[0] == "RET"@ {
            Ok(seq!['0', '0', 'E', 'E'])
        } else {
            Err(ErrS::UnknownInstruction(ts[0]))
        }
    } else if ts.len() == 2 {
        if ts[0] == "SYS"@ {
            op_n3('0', ts[1])
        } else if ts[0] == "JP"@ {
            op_n3('1', ts[1])
        } else if ts[0] == "CALL"@ {
            op_n3('2', ts[1])
        } else if ts[0] == "SHR"@ {
            op_r('8', ts[1], '0', '6')
        } else if ts[0] == "SHL"@ {
            op_r('8', ts[1], '0', 'E')
        } else if ts[0] == "SKP"@ {
            op_r('E', ts[1], '9', 'E')
        } else if ts[0] == "SKNP"@ {
            op_r('E', ts[1], 'A', '1')
        } else {
            Err(ErrS::UnknownInstruction(ts[0]))
        }
    } else if ts.len() == 3 {
        if ts[0] == "SE"@ {
            if seq_contains(ts[2], 'V') {
                op_rr('5', ts[1], ts[2], '0')
            } else {
                op_rn('3', ts[1], ts[2])
            }
        } else if ts[0] == "SNE"@ {
            if seq_contains(ts[2], 'V') {
                op_rr('9', ts[1], ts[2], '0')
            } else {
                op_rn('4', ts[1], ts[2])
            }
        } else if ts[0] == "LD"@ {
            if ts[1] == "I"@ {
                if seq_contains(ts[2], 'V') {
                    op_r('F', ts[2], '5', '5')
                } else {
                    op_n3('A', ts[2])
                }
            } else if ts[1] == "B"@ {
                op_r('F', ts[2], '3', '3')
            } else if ts[1] == "F"@ {
                op_r('F', ts[2], '2', '9')
            } else if ts[1] == "ST"@ {
                op_r('F', ts[2], '1', '8')
            } else if ts[1] == "DT"@ {
                op_r('F', ts[2], '1', '5')
            } else if ts[2] == "DT"@ {
                op_r('F', ts[1], '0', '7')
            } else if ts[2] == "K"@ {
                op_r('F', ts[1], '0', 'A')
            } else if ts[2] == "I"@ {
                op_r('F', ts[1], '6', '5')
            } else if seq_contains(ts[2], 'V') {
                op_rr('8', ts[1], ts[2], '0')
            } else {
                op_rn('6', ts[1], ts[2])
            }
        } else if ts[0] == "ADD"@ {
            if seq_contains(ts[2], 'V') {
                op_rr('8', ts[1], ts[2], '4')
            } else {
                op_rn('7', ts[1], ts[2])
            }
        } else if ts[0] == "OR"@ {
            op_rr('8', ts[1], ts[2], '1')
        } else if ts[0] == "AND"@ {
            op_rr('8', ts[1], ts[2], '2')
        } else if ts[0] == "XOR"@ {
            op_rr('8', ts[1], ts[2], '3')
        } else if ts[0] == "SUB"@ {
            op_rr('8', ts[1], ts[2], '5')
        } else if ts[0] == "SUBN"@ {
            op_rr('8', ts[1], ts[2], '7')
        } else if ts[0] == "JP"@ {
            if ts[1] == "V0"@ {
                op_n3('B', ts[2])
            } else {
                Err(ErrS::IllegalOperand(ts[0], ts[1]))
            }
        } else if ts[0] == "RND"@ {
            op_rn('C', ts[1], ts[2])
        } else {
            Err(ErrS::UnknownInstruction(ts[0]))
        }
    } else if ts.len() == 4 {
        if ts[0] == "DRW"@ {
            match reg_or_err(ts[1]) {
                Err(e) => Err(e),
                Ok(a) => match reg_or_err(ts[2]) {
                    Err(e) => Err(e),
                    Ok(b) => match num_or_err(ts[3], 1) {
                        Err(e) => Err(e),
                        Ok(h) => Ok(seq!['D', a, b] + h),
                    },
                },
            }
        } else {
            Err(ErrS::UnknownInstruction(ts[0]))
        }
    } else {
        Err(ErrS::UnknownInstruction(ts[0]))
    }
}

/// What encoding a normalized line denotes, given the alias and label
/// tables: the label-as-data shape, a raw data line, or an instruction
/// by the opcode table, after per-token alias and label substitution.
pub open spec fn decode_spec(
    line: Seq<char>,
    aliases: Seq<AliasModel>,
    labels: Seq<LabelModel>,
) -> Result<Seq<char>, ErrS> {
    let toks = tokens_of(line);
    if toks.len() == 0 {
        Err(ErrS::UnknownInstruction(Seq::empty()))
    } else if toks[0] == ":"@ {
        if toks.len() < 2 {
            Err(ErrS::MalformedDirective(line))
        } else {
            match label_lookup(toks[1], labels) {
                Some(l) => Ok(seq!['0'] + hex_render(l.address, 3)),
                None => Err(ErrS::UnknownLabel(toks[1])),
            }
        }
    } else {
        let st = toks.map_values(|t: Seq<char>| subst_tok(t, aliases, labels));
        if is_data_head(st[0]) {
            data_spec(st)
        } else {
            dispatch_spec(st)
        }
    }
}

/// The model of an encoding result.
pub open spec fn res_view(r: Result<Vec<char>, AsmError>) -> Result<Seq<char>, ErrS> {
    match r {
        Ok(v) => Ok(v@),
        Err(e) => Err(e@),
    }
}

fn enc_rr(prefix: char, t1: &Vec<char>, t2: &Vec<char>, suffix: char) -> (r: Result<
    Vec<char>,
    AsmError,
>)
    ensures
        res_view(r) == op_rr(prefix, t1@, t2@, suffix),
{
    let a = match register(t1) {
        Ok(a) => a,
        Err(e) => { return Err(e); },
    };
    let b = match register(t2) {
        Ok(b) => b,
        Err(e) => { return Err(e); },
    };
    let mut out: Vec<char> = Vec::new();
    out.push(prefix);
    out.push(a[0]);
    out.push(b[0]);
    out.push(suffix);
    proof {
        assert(out@ =~= seq![prefix, a@[0], b@[0], suffix]);
    }
    Ok(out)
}

fn enc_rn(prefix: char, t1: &Vec<char>, t2: &Vec<char>) -> (r: Result<Vec<char>, AsmError>)
    ensures
        res_view(r) == op_rn(prefix, t1@, t2@),
{
    let a = match register(t1) {
        Ok(a) => a,
        Err(e) => { return Err(e); },
    };
    let mut h = match num(t2, 2) {
        Ok(h) => h,
        Err(e) => { return Err(e); },
    };
    let mut out: Vec<char> = Vec::new();
    out.push(prefix);
    out.push(a[0]);
    let ghost hv = h@;
    out.append(&mut h);
    proof {
        assert(out@ =~= seq![prefix, a@[0]] + hv);
    }
    Ok(out)
}

fn enc_n3(prefix: char, t: &Vec<char>) -> (r: Result<Vec<char>, AsmError>)
    ensures
        res_view(r) == op_n3(prefix, t@),
{
    let mut h = match num(t, 3) {
        Ok(h) => h,
        Err(e) => { return Err(e); },
    };
    let mut out: Vec<char> = Vec::new();
    out.push(prefix);
    let ghost hv = h@;
    out.append(&mut h);
    proof {
        assert(out@ =~= seq![prefix] + hv);
    }
    Ok(out)
}

fn enc_r(prefix: char, t: &Vec<char>, s1: char, s2: char) -> (r: Result<Vec<char>, AsmError>)
    ensures
        res_view(r) == op_r(prefix, t@, s1, s2),
{
    let a = match register(t) {
        Ok(a) => a,
        Err(e) => { return Err(e); },
    };
    let mut out: Vec<char> = Vec::new();
    out.push(prefix);
    out.push(a[0]);
    out.push(s1);
    out.push(s2);
    proof {
        assert(out@ =~= seq![prefix, a@[0], s1, s2]);
    }
    Ok(out)
}

/// Encode one normalized line against the alias and label tables.
pub fn decode(line: &Vec<char>, aliases: &Vec<AliasLabel>, jumps: &Vec<JumpLabel>) -> (r: Result<
    Vec<char>,
    AsmError,
>)
    ensures
        res_view(r) == decode_spec(line@, aliases_view(aliases@), labels_view(jumps@)),
{
    let ghost av = aliases_view(aliases@);
    let ghost lv = labels_view(jumps@);
    let toks = split_ws(line);
    proof {
        assert(forall|i: int|
            0 <= i < toks@.len() ==> #[trigger] toks@[i]@ == tokens_of(line@)[i]) by {
            assert(forall|i: int|
                0 <= i < toks@.len() ==> views_of(toks@)[i] == #[trigger] toks@[i]@);
        }
    }
    if toks.len() == 0 {
        return Err(AsmError::UnknownInstruction(Vec::new()));
    }
    if tok_eq_str(&toks[0], ":") {
        // Label-as-data: the named label's address as four digits.
        if toks.len() < 2 {
            return Err(AsmError::MalformedDirective(line.clone()));
        }
        let name = &toks[1];
        let mut i: usize = 0;
        while i < jumps.len()
            invariant
                0 <= i <= jumps@.len(),
                av == aliases_view(aliases@),
                lv == labels_view(jumps@),
                tokens_of(line@).len() >= 2,
                tokens_of(line@)[0] == ":"@,
                name@ == tokens_of(line@)[1],
                forall|j: int| 0 <= j < i ==> name@ != #[trigger] lv[j].name,
            decreases jumps@.len() - i,
        {
            proof {
                assert(lv[i as int] == jumps@[i as int]@);
            }
            if tok_eq(name, &jumps[i].name) {
                proof {
                    lemma_label_lookup_skip(name@, lv, i as int);
                    assert(lv.skip(i as int)[0] == lv[i as int]);
                }
                let mut out: Vec<char> = Vec::new();
                out.push('0');
                let mut h = render_hex(jumps[i].address as u64, 3);
                let ghost hv = h@;
                out.append(&mut h);
                proof {
                    assert(out@ =~= seq!['0'] + hv);
                    assert(label_lookup(name@, lv) == Some(lv[i as int]));
                    assert(tokens_of(line@).len() >= 2);
                    assert(tokens_of(line@)[0] == ":"@);
                    assert(hv == hex_render(lv[i as int].address, 3));
                    assert(decode_spec(line@, av, lv) == Ok::<Seq<char>, ErrS>(
                        seq!['0'] + hex_render(lv[i as int].address, 3)));
                }
                return Ok(out);
            }
            i += 1;
        }
        proof {
            lemma_label_lookup_skip(name@, lv, i as int);
            assert(lv.skip(i as int).len() == 0);
        }
        return Err(AsmError::UnknownLabel(name.clone()));
    }
    // Alias, then label substitution, token by token.
    let ghost stv = tokens_of(line@).map_values(
        |t: Seq<char>| subst_tok(t, aliases_view(aliases@), labels_view(jumps@)),
    );
    let mut st: Vec<Vec<char>> = Vec::new();
    let mut i: usize = 0;
    while i < toks.len()
        invariant
            0 <= i <= toks@.len(),
            av == aliases_view(aliases@),
            lv == labels_view(jumps@),
            views_of(toks@) == tokens_of(line@),
            stv == tokens_of(line@).map_values(
                |t: Seq<char>| subst_tok(t, aliases_view(aliases@), labels_view(jumps@)),
            ),
            st@.len() == i,
            forall|j: int| 0 <= j < i ==> #[trigger] st@[j]@ == stv[j],
        decreases toks@.len() - i,
    {
        let a = subst_alias_tok(&toks[i], aliases);
        let b = subst_label_tok(&a, jumps);
        proof {
            assert(toks@[i as int]@ == tokens_of(line@)[i as int]);
            assert(b@ == stv[i as int]);
        }
        st.push(b);
        i += 1;
    }
    proof {
        assert(stv.len() == tokens_of(line@).len());
        assert(st@[0]@ == stv[0]);
    }
    // Raw data line?
    let head = &st[0];
    let is_data = (head.len() >= 2 && head[0] == '0' && (head[1] == 'X' || head[1] == 'B')) || (
    head.len() >= 1 && head[0] == '$');
    if is_data {
        let mut out: Vec<char> = Vec::new();
        let mut i: usize = 0;
        proof {
            assert(stv.skip(0) =~= stv);
            assert(tokens_of(line@).len() > 0);
            assert(tokens_of(line@)[0] != ":"@);
            assert(is_data_head(stv[0]));
            assert(decode_spec(line@, aliases_view(aliases@), labels_view(jumps@)) == data_spec(
                stv,
            ));
        }
        while i < st.len()
            invariant
                0 <= i <= st@.len(),
                st@.len() == stv.len(),
                decode_spec(line@, aliases_view(aliases@), labels_view(jumps@)) == data_spec(stv),
                forall|j: int| 0 <= j < st@.len() ==> #[trigger] st@[j]@ == stv[j],
                data_spec(stv) == (match data_spec(stv.skip(i as int)) {
                    Err(e) => Err::<Seq<char>, ErrS>(e),
                    Ok(rest) => Ok(out@ + rest),
                }),
            decreases st@.len() - i,
        {
            let mut h = match num(&st[i], 2) {
                Ok(h) => h,
                Err(e) => {
                    proof {
                        assert(stv.skip(i as int)[0] == stv[i as int]);
                        assert(num_or_err(stv[i as int], 2) == Err::<Seq<char>, ErrS>(
                            ErrS::InvalidNumber(stv[i as int])));
                        assert(data_spec(stv.skip(i as int)) == Err::<Seq<char>, ErrS>(
                            ErrS::InvalidNumber(stv[i as int])));
                        assert(data_spec(stv) == Err::<Seq<char>, ErrS>(
                            ErrS::InvalidNumber(stv[i as int])));
                        assert(e@ == ErrS::InvalidNumber(stv[i as int]));
                        assert(decode_spec(line@, aliases_view(aliases@), labels_view(jumps@))
                            == data_spec(stv));
                    }
                    return Err(e);
                },
            };
            proof {
                assert(stv.skip(i as int)[0] == stv[i as int]);
                assert(stv.skip(i as int).drop_first() =~= stv.skip(i + 1));
            }
            let ghost hv = h@;
            let ghost ov = out@;
            out.append(&mut h);
            proof {
                assert(forall|rest: Seq<char>| (ov + hv) + rest =~= ov + (hv + rest));
            }
            i += 1;
        }
        proof {
            assert(stv.skip(i as int).len() == 0);
            assert(data_spec(stv.skip(i as int)) == Ok::<Seq<char>, ErrS>(Seq::empty()));
            assert(out@ + Seq::<char>::empty() =~= out@);
        }
        return Ok(out);
    }
    // Mnemonic dispatch by token count.
    if st.len() == 1 {
        if tok_eq_str(&st[0], "CLS") {
            let out = vec!['0', '0', 'E', '0'];
            proof {
                assert(out@ =~= seq!['0', '0', 'E', '0']);
            }
            Ok(out)
        } else if tok_eq_str(&st[0], "RET") {
            let out = vec!['0', '0', 'E', 'E'];
            proof {
                assert(out@ =~= seq!['0', '0', 'E', 'E']);
            }
            Ok(out)
        } else {
            Err(AsmError::UnknownInstruction(st[0].clone()))
        }
    } else if st.len() == 2 {
        proof {
            assert(st@[1]@ == stv[1]);
        }
        if tok_eq_str(&st[0], "SYS") {
            enc_n3('0', &st[1])
        } else if tok_eq_str(&st[0], "JP") {
            enc_n3('1', &st[1])
        } else if tok_eq_str(&st[0], "CALL") {
            enc_n3('2', &st[1])
        } else if tok_eq_str(&st[0], "SHR") {
            enc_r('8', &st[1], '0', '6')
        } else if tok_eq_str(&st[0], "SHL") {
            enc_r('8', &st[1], '0', 'E')
        } else if tok_eq_str(&st[0], "SKP") {
            enc_r('E', &st[1], '9', 'E')
        } else if tok_eq_str(&st[0], "SKNP") {
            enc_r('E', &st[1], 'A', '1')
        } else {
            Err(AsmError::UnknownInstruction(st[0].clone()))
        }
    } else if st.len() == 3 {
        proof {
            assert(st@[1]@ == stv[1]);
            assert(st@[2]@ == stv[2]);
        }
        if tok_eq_str(&st[0], "SE") {
            if vec_contains(&st[2], 'V') {
                enc_rr('5', &st[1], &st[2], '0')
            } else {
                enc_rn('3', &st[1], &st[2])
            }
        } else if tok_eq_str(&st[0], "SNE") {
            if vec_contains(&st[2], 'V') {
                enc_rr('9', &st[1], &st[2], '0')
            } else {
                enc_rn('4', &st[1], &st[2])
            }
        } else if tok_eq_str(&st[0], "LD") {
            if tok_eq_str(&st[1], "I") {
                if vec_contains(&st[2], 'V') {
                    enc_r('F', &st[2], '5', '5')
                } else {
                    enc_n3('A', &st[2])
                }
            } else if tok_eq_str(&st[1], "B") {
                enc_r('F', &st[2], '3', '3')
            } else if tok_eq_str(&st[1], "F") {
                enc_r('F', &st[2], '2', '9')
            } else if tok_eq_str(&st[1], "ST") {
                enc_r('F', &st[2], '1', '8')
            } else if tok_eq_str(&st[1], "DT") {
                enc_r('F', &st[2], '1', '5')
            } else if tok_eq_str(&st[2], "DT") {
                enc_r('F', &st[1], '0', '7')
            } else if tok_eq_str(&st[2], "K") {
                enc_r('F', &st[1], '0', 'A')
            } else if tok_eq_str(&st[2], "I") {
                enc_r('F', &st[1], '6', '5')
            } else if vec_contains(&st[2], 'V') {
                enc_rr('8', &st[1], &st[2], '0')
            } else {
                enc_rn('6', &st[1], &st[2])
            }
        } else if tok_eq_str(&st[0], "ADD") {
            if vec_contains(&st[2], 'V') {
                enc_rr('8', &st[1], &st[2], '4')
            } else {
                enc_rn('7', &st[1], &st[2])
            }
        } else if tok_eq_str(&st[0], "OR") {
            enc_rr('8', &st[1], &st[2], '1')
        } else if tok_eq_str(&st[0], "AND") {
            enc_rr('8', &st[1], &st[2], '2')
        } else if tok_eq_str(&st[0], "XOR") {
            enc_rr('8', &st[1], &st[2], '3')
        } else if tok_eq_str(&st[0], "SUB") {
            enc_rr('8', &st[1], &st[2], '5')
        } else if tok_eq_str(&st[0], "SUBN") {
            enc_rr('8', &st[1], &st[2], '7')
        } else if tok_eq_str(&st[0], "JP") {
            if tok_eq_str(&st[1], "V0") {
                enc_n3('B', &st[2])
            } else {
                Err(AsmError::IllegalOperand(st[0].clone(), st[1].clone()))
            }
        } else if tok_eq_str(&st[0], "RND") {
            enc_rn('C', &st[1], &st[2])
        } else {
            Err(AsmError::UnknownInstruction(st[0].clone()))
        }
    } else if st.len() == 4 {
        proof {
            assert(st@[1]@ == stv[1]);
            assert(st@[2]@ == stv[2]);
            assert(st@[3]@ == stv[3]);
        }
        if tok_eq_str(&st[0], "DRW") {
            let a = match register(&st[1]) {
                Ok(a) => a,
                Err(e) => { return Err(e); },
            };
            let b = match register(&st[2]) {
                Ok(b) => b,
                Err(e) => { return Err(e); },
            };
            let mut h = match num(&st[3], 1) {
                Ok(h) => h,
                Err(e) => { return Err(e); },
            };
            let mut out: Vec<char> = Vec::new();
            out.push('D');
            out.push(a[0]);
            out.push(b[0]);
            let ghost hv = h@;
            out.append(&mut h);
            proof {
                assert(out@ =~= seq!['D', a@[0], b@[0]] + hv);
            }
            Ok(out)
        } else {
            Err(AsmError::UnknownInstruction(st[0].clone()))
        }
    } else {
        Err(AsmError::UnknownInstruction(st[0].clone()))
    }
}

} // verus!
