//! The preprocessor: normalize the source lines, collect alias and
//! label directives, accumulate label bodies and sizes, and assign
//! every label its address.
//!
//! A directive line opens with the label delimiter `:`. An alias
//! directive `:ALIAS <from> <to>` extends the alias table and is removed
//! from the line list; a label directive `: <name>` opens a new jump
//! label. Any other line is kept; once a label is open it also joins the
//! open (most recently declared) label's body: a line leading with a
//! mnemonic counts 2 bytes, otherwise each token is one raw data byte,
//! normalized to two hexadecimal digits. Lines before the first label
//! directive are kept in the line list but belong to no label.

use vstd::prelude::*;
use crate::errors::AsmError;
use crate::errors::ErrS;
use crate::encode::is_mnemonic;
use crate::encode::mnemonic;
use crate::encode::num_or_err;
use crate::labels::AliasLabel;
use crate::labels::AliasModel;
use crate::labels::JumpLabel;
use crate::labels::LabelModel;
use crate::labels::aliases_view;
use crate::labels::labels_view;
use crate::labels::addresses_assigned;
use crate::labels::assign_addresses;
use crate::labels::base_address;
use crate::labels::address_space_end;
use crate::labels::total_size;
use crate::numbers::num;
use crate::tokens::normalize_source;
use crate::tokens::normalized_lines;
use crate::tokens::split_ws;
use crate::tokens::tokens_of;
use crate::tokens::views_of;

verus! {

/// The bytes the program space can hold past the base address.
pub open spec fn size_cap() -> nat {
    (address_space_end() - base_address()) as nat
}

/// The preprocessor's accumulator: the surviving lines, the alias table
/// and the label table (sizes and bodies filled, addresses not yet).
pub struct ScanState {
    /// The surviving normalized lines, in order.
    pub out: Seq<Seq<char>>,
    /// The alias table, in declaration order.
    pub aliases: Seq<AliasModel>,
    /// The label table, in declaration order.
    pub labels: Seq<LabelModel>,
}

/// A freshly declared label: sentinel address, empty body.
pub open spec fn new_label(name: Seq<char>) -> LabelModel {
    LabelModel {
        name: name,
        address: 0xFFFF,
        address_str: Seq::empty(),
        size: 0,
        instructions: Seq::empty(),
    }
}

/// The raw data bytes of a line's tokens, each normalized to two
/// hexadecimal digits; the first failing token's error otherwise.
pub open spec fn data_bytes(ts: Seq<Seq<char>>) -> Result<Seq<Seq<char>>, ErrS>
    decreases ts.len(),
{
    if ts.len() == 0 {
        Ok(Seq::empty())
    } else {
        match num_or_err(ts[0], 2) {
            Err(e) => Err(e),
            Ok(h) => match data_bytes(ts.drop_first()) {
                Err(e) => Err(e),
                Ok(rest) => Ok(seq![h] + rest),
            },
        }
    }
}

/// One preprocessing step: what one normalized line does to the
/// accumulator.
pub open spec fn scan_line(st: ScanState, line: Seq<char>) -> Result<ScanState, ErrS> {
    let toks = tokens_of(line);
    if line.len() > 0 && line[0] == ':' {
        if toks.len() > 0 && toks[0] == ":ALIAS"@ {
            if toks.len() == 3 {
                Ok(ScanState { aliases: st.aliases.push(AliasModel { from: toks[1], to: toks[2] }), ..st })
            } else {
                Err(ErrS::MalformedDirective(line))
            }
        } else if toks.len() > 0 && toks[0] == ":"@ {
            if toks.len() == 2 {
                Ok(ScanState {
                    out: st.out.push(line),
                    labels: st.labels.push(new_label(toks[1])),
                    ..st
                })
            } else {
                Err(ErrS::MalformedDirective(line))
            }
        } else {
            Err(ErrS::MalformedDirective(line))
        }
    } else if st.labels.len() == 0 {
        Ok(ScanState { out: st.out.push(line), ..st })
    } else if toks.len() > 0 && is_mnemonic(toks[0]) {
        if total_size(st.labels) + 2 > size_cap() {
            Err(ErrS::ProgramTooLarge)
        } else {
            let k = st.labels.len() - 1;
            let l = st.labels[k as int];
            Ok(ScanState {
                out: st.out.push(line),
                labels: st.labels.update(
                    k as int,
                    LabelModel {
                        size: (l.size + 2) as nat,
                        instructions: l.instructions.push(line),
                        ..l
                    },
                ),
                ..st
            })
        }
    } else {
        match data_bytes(toks) {
            Err(e) => Err(e),
            Ok(bs) => if total_size(st.labels) + toks.len() > size_cap() {
                Err(ErrS::ProgramTooLarge)
            } else {
                let k = st.labels.len() - 1;
                let l = st.labels[k as int];
                Ok(ScanState {
                    out: st.out.push(line),
                    labels: st.labels.update(
                        k as int,
                        LabelModel {
                            size: (l.size + toks.len()) as nat,
                            instructions: l.instructions + bs,
                            ..l
                        },
                    ),
                    ..st
                })
            },
        }
    }
}

/// The preprocessor's scan over a normalized line list, from an empty
/// accumulator.
pub open spec fn scan_lines(lines: Seq<Seq<char>>) -> Result<ScanState, ErrS>
    decreases lines.len(),
{
    if lines.len() == 0 {
        Ok(ScanState { out: Seq::empty(), aliases: Seq::empty(), labels: Seq::empty() })
    } else {
        match scan_lines(lines.drop_last()) {
            Err(e) => Err(e),
            Ok(st) => scan_line(st, lines.last()),
        }
    }
}

/// The size of the last label never exceeds the total.
proof fn lemma_last_size_le_total(ls: Seq<LabelModel>)
    requires
        ls.len() > 0,
    ensures
        ls.last().size <= total_size(ls),
{
}

/// Updating the last label changes the total by the size difference.
proof fn lemma_total_update_last(ls: Seq<LabelModel>, l: LabelModel)
    requires
        ls.len() > 0,
    ensures
        total_size(ls.update(ls.len() - 1, l)) == total_size(ls) - ls.last().size + l.size,
{
    let u = ls.update(ls.len() - 1, l);
    assert(u.drop_last() =~= ls.drop_last());
    assert(u.last() == l);
}

/// Appending a label extends the total by its size.
proof fn lemma_total_push(ls: Seq<LabelModel>, l: LabelModel)
    ensures
        total_size(ls.push(l)) == total_size(ls) + l.size,
{
    let u = ls.push(l);
    assert(u.drop_last() =~= ls);
    assert(u.last() == l);
}

/// A scan that fails on a prefix fails the same way on the whole list.
proof fn lemma_scan_err_prefix(ls: Seq<Seq<char>>, k: int)
    requires
        0 <= k <= ls.len(),
        scan_lines(ls.take(k)) is Err,
    ensures
        scan_lines(ls) == scan_lines(ls.take(k)),
    decreases ls.len() - k,
{
    if k < ls.len() {
        assert(ls.take(k + 1).drop_last() =~= ls.take(k));
        lemma_scan_err_prefix(ls, k + 1);
    } else {
        assert(ls.take(k) =~= ls);
    }
}

/// Normalize every token of a raw data line to its two-digit byte.
fn render_data(toks: &Vec<Vec<char>>) -> (r: Result<Vec<Vec<char>>, AsmError>)
    ensures
        match r {
            Ok(bs) => data_bytes(views_of(toks@)) == Ok::<Seq<Seq<char>>, ErrS>(views_of(bs@)),
            Err(e) => data_bytes(views_of(toks@)) == Err::<Seq<Seq<char>>, ErrS>(e@),
        },
{
    let ghost tv = views_of(toks@);
    let mut bytes: Vec<Vec<char>> = Vec::new();
    let mut j: usize = 0;
    proof {
        assert(tv.skip(0) =~= tv);
        assert(views_of(bytes@) =~= Seq::<Seq<char>>::empty());
    }
    while j < toks.len()
        invariant
            0 <= j <= toks@.len(),
            tv == views_of(toks@),
            data_bytes(tv) == (match data_bytes(tv.skip(j as int)) {
                Err(e) => Err::<Seq<Seq<char>>, ErrS>(e),
                Ok(rest) => Ok(views_of(bytes@) + rest),
            }),
        decreases toks@.len() - j,
    {
        proof {
            assert(tv[j as int] == toks@[j as int]@);
            assert(tv.skip(j as int)[0] == tv[j as int]);
            assert(tv.skip(j as int).drop_first() =~= tv.skip(j + 1));
        }
        let h = match num(&toks[j], 2) {
            Ok(h) => h,
            Err(e) => {
                return Err(e);
            },
        };
        let ghost bv0 = views_of(bytes@);
        let ghost hv = h@;
        bytes.push(h);
        proof {
            assert(views_of(bytes@) =~= bv0.push(hv));
            assert(forall|rest: Seq<Seq<char>>|
                (bv0 + (seq![hv] + rest)) =~= (bv0.push(hv) + rest));
        }
        j += 1;
    }
    proof {
        assert(tv.skip(j as int).len() == 0);
        assert(data_bytes(tv.skip(j as int)) == Ok::<Seq<Seq<char>>, ErrS>(Seq::empty()));
        assert(views_of(bytes@) + Seq::<Seq<char>>::empty() =~= views_of(bytes@));
    }
    Ok(bytes)
}

/// Scan a normalized line list: collect the surviving lines, the alias
/// table and the label table with sizes and bodies. On success the
/// total label size fits the program space.
pub fn scan(lines: &Vec<Vec<char>>) -> (r: Result<
    (Vec<Vec<char>>, Vec<AliasLabel>, Vec<JumpLabel>),
    AsmError,
>)
    ensures
        match r {
            Ok(t) => scan_lines(views_of(lines@)) == Ok::<ScanState, ErrS>(
                ScanState {
                    out: views_of(t.0@),
                    aliases: aliases_view(t.1@),
                    labels: labels_view(t.2@),
                },
            ) && total_size(labels_view(t.2@)) <= size_cap(),
            Err(e) => scan_lines(views_of(lines@)) == Err::<ScanState, ErrS>(e@),
        },
{
    let ghost lv = views_of(lines@);
    let mut out: Vec<Vec<char>> = Vec::new();
    let mut aliases: Vec<AliasLabel> = Vec::new();
    let mut labels: Vec<JumpLabel> = Vec::new();
    let mut total: u16 = 0;
    let mut i: usize = 0;
    proof {
        assert(lv.take(0) =~= Seq::<Seq<char>>::empty());
        assert(views_of(out@) =~= Seq::<Seq<char>>::empty());
        assert(aliases_view(aliases@) =~= Seq::<AliasModel>::empty());
        assert(labels_view(labels@) =~= Seq::<LabelModel>::empty());
    }
    while i < lines.len()
        invariant
            0 <= i <= lines@.len(),
            lv == views_of(lines@),
            total as nat == total_size(labels_view(labels@)),
            total <= 0xE00,
            scan_lines(lv.take(i as int)) == Ok::<ScanState, ErrS>(
                ScanState {
                    out: views_of(out@),
                    aliases: aliases_view(aliases@),
                    labels: labels_view(labels@),
                },
            ),
        decreases lines@.len() - i,
    {
        let ghost st0 = ScanState {
            out: views_of(out@),
            aliases: aliases_view(aliases@),
            labels: labels_view(labels@),
        };
        let line = &lines[i];
        let toks = split_ws(line);
        proof {
            assert(lv[i as int] == lines@[i as int]@);
            assert(lv.take(i + 1).drop_last() =~= lv.take(i as int));
            assert(lv.take(i + 1).last() == line@);
            assert(forall|j: int|
                0 <= j < toks@.len() ==> #[trigger] toks@[j]@ == tokens_of(line@)[j]) by {
                assert(forall|j: int|
                    0 <= j < toks@.len() ==> views_of(toks@)[j] == #[trigger] toks@[j]@);
            }
        }
        if line.len() > 0 && line[0] == ':' {
            if toks.len() > 0 && crate::labels::tok_eq_str(&toks[0], ":ALIAS") {
                if toks.len() == 3 {
                    let ghost av0 = aliases_view(aliases@);
                    aliases.push(
                        AliasLabel { from: toks[1].clone(), to: toks[2].clone() },
                    );
                    proof {
                        assert(aliases_view(aliases@) =~= av0.push(
                            AliasModel {
                                from: tokens_of(line@)[1],
                                to: tokens_of(line@)[2],
                            },
                        ));
                    }
                } else {
                    proof {
                        assert(scan_line(st0, line@) == Err::<ScanState, ErrS>(
                            ErrS::MalformedDirective(line@)));
                        assert(scan_lines(lv.take(i + 1)) == Err::<ScanState, ErrS>(
                            ErrS::MalformedDirective(line@)));
                        lemma_scan_err_prefix(lv, i + 1);
                    }
                    return Err(AsmError::MalformedDirective(line.clone()));
                }
            } else if toks.len() > 0 && crate::labels::tok_eq_str(&toks[0], ":") {
                if toks.len() == 2 {
                    let ghost lb0 = labels_view(labels@);
                    labels.push(
                        JumpLabel {
                            name: toks[1].clone(),
                            address: 0xFFFF,
                            address_str: Vec::new(),
                            size: 0,
                            instructions: Vec::new(),
                        },
                    );
                    out.push(line.clone());
                    proof {
                        let lastv = labels@[labels@.len() - 1]@;
                        assert(lastv.instructions =~= Seq::<Seq<char>>::empty());
                        assert(lastv.address_str =~= Seq::<char>::empty());
                        assert(lastv == new_label(tokens_of(line@)[1]));
                        assert(labels_view(labels@) =~= lb0.push(
                            new_label(tokens_of(line@)[1]),
                        ));
                        lemma_total_push(lb0, new_label(tokens_of(line@)[1]));
                        assert(views_of(out@) =~= st0.out.push(line@));
                    }
                } else {
                    proof {
                        assert(scan_line(st0, line@) == Err::<ScanState, ErrS>(
                            ErrS::MalformedDirective(line@)));
                        assert(scan_lines(lv.take(i + 1)) == Err::<ScanState, ErrS>(
                            ErrS::MalformedDirective(line@)));
                        lemma_scan_err_prefix(lv, i + 1);
                    }
                    return Err(AsmError::MalformedDirective(line.clone()));
                }
            } else {
                proof {
                    assert(scan_line(st0, line@) == Err::<ScanState, ErrS>(
                        ErrS::MalformedDirective(line@)));
                    assert(scan_lines(lv.take(i + 1)) == Err::<ScanState, ErrS>(
                        ErrS::MalformedDirective(line@)));
                    lemma_scan_err_prefix(lv, i + 1);
                }
                return Err(AsmError::MalformedDirective(line.clone()));
            }
        } else if labels.len() == 0 {
            out.push(line.clone());
            proof {
                assert(labels_view(labels@).len() == 0);
                assert(views_of(out@) =~= st0.out.push(line@));
            }
        } else if toks.len() > 0 && mnemonic(&toks[0]) {
            proof {
                assert(labels_view(labels@).len() == labels@.len());
                assert(labels_view(labels@).last() == labels@[labels@.len() - 1]@);
                lemma_last_size_le_total(labels_view(labels@));
            }
            if total > 0xE00 - 2 {
                proof {
                    assert(total_size(st0.labels) + 2 > size_cap());
                    assert(scan_line(st0, line@) == Err::<ScanState, ErrS>(ErrS::ProgramTooLarge));
                    assert(scan_lines(lv.take(i + 1)) == Err::<ScanState, ErrS>(
                        ErrS::ProgramTooLarge));
                    lemma_scan_err_prefix(lv, i + 1);
                }
                return Err(AsmError::ProgramTooLarge);
            }
            total = total + 2;
            let ghost lb0 = labels_view(labels@);
            let mut l = match labels.pop() {
                Some(l) => l,
                None => {
                    proof {
                        assert(false);
                    }
                    return Err(AsmError::ProgramTooLarge);
                },
            };
            let ghost lm0 = l@;
            l.size = l.size + 2;
            l.instructions.push(line.clone());
            let ghost lm1 = l@;
            labels.push(l);
            out.push(line.clone());
            proof {
                assert(lm1.instructions =~= lm0.instructions.push(line@));
                assert(lm1 == (LabelModel {
                    size: (lm0.size + 2) as nat,
                    instructions: lm0.instructions.push(line@),
                    ..lm0
                }));
                assert(labels_view(labels@) =~= lb0.update(lb0.len() - 1, lm1));
                lemma_total_update_last(lb0, lm1);
                assert(views_of(out@) =~= st0.out.push(line@));
            }
        } else {
            // A raw data line: every token one byte, two digits each.
            let ghost tv = tokens_of(line@);
            proof {
                assert(views_of(toks@) == tv);
            }
            let mut bytes = match render_data(&toks) {
                Ok(bs) => bs,
                Err(e) => {
                    proof {
                        assert(data_bytes(tv) == Err::<Seq<Seq<char>>, ErrS>(e@));
                        assert(scan_line(st0, line@) == Err::<ScanState, ErrS>(e@));
                        assert(scan_lines(lv.take(i + 1)) == Err::<ScanState, ErrS>(e@));
                        lemma_scan_err_prefix(lv, i + 1);
                    }
                    return Err(e);
                },
            };
            proof {
                assert(data_bytes(tv) == Ok::<Seq<Seq<char>>, ErrS>(views_of(bytes@)));
                assert(labels_view(labels@).len() == labels@.len());
                assert(labels_view(labels@).last() == labels@[labels@.len() - 1]@);
                lemma_last_size_le_total(labels_view(labels@));
            }
            if toks.len() > (0xE00 - total) as usize {
                proof {
                    assert(total_size(st0.labels) + tv.len() > size_cap());
                    assert(scan_line(st0, line@) == Err::<ScanState, ErrS>(ErrS::ProgramTooLarge));
                    assert(scan_lines(lv.take(i + 1)) == Err::<ScanState, ErrS>(
                        ErrS::ProgramTooLarge));
                    lemma_scan_err_prefix(lv, i + 1);
                }
                return Err(AsmError::ProgramTooLarge);
            }
            total = total + (toks.len() as u16);
            let ghost lb0 = labels_view(labels@);
            let mut l = match labels.pop() {
                Some(l) => l,
                None => {
                    proof {
                        assert(false);
                    }
                    return Err(AsmError::ProgramTooLarge);
                },
            };
            let ghost lm0 = l@;
            l.size = l.size + (toks.len() as u16);
            let ghost bsv = views_of(bytes@);
            l.instructions.append(&mut bytes);
            let ghost lm1 = l@;
            labels.push(l);
            out.push(line.clone());
            proof {
                assert(lm1.instructions =~= lm0.instructions + bsv);
                assert(lm1 == (LabelModel {
                    size: (lm0.size + tv.len()) as nat,
                    instructions: lm0.instructions + bsv,
                    ..lm0
                }));
                assert(labels_view(labels@) =~= lb0.update(lb0.len() - 1, lm1));
                lemma_total_update_last(lb0, lm1);
                assert(views_of(out@) =~= st0.out.push(line@));
            }
        }
        proof {
            assert(scan_lines(lv.take(i + 1)) == scan_line(st0, line@));
            assert(scan_line(st0, line@) == Ok::<ScanState, ErrS>(
                ScanState {
                    out: views_of(out@),
                    aliases: aliases_view(aliases@),
                    labels: labels_view(labels@),
                },
            ));
        }
        i += 1;
    }
    proof {
        assert(lv.take(i as int) =~= lv);
    }
    Ok((out, aliases, labels))
}

/// Preprocess a source text: normalize its lines, scan the directives
/// and label bodies, and assign every label its address. On success the
/// surviving lines, the alias table and the fully addressed label table
/// come back; the first scan failure comes back otherwise.
pub fn preprocess(file: &Vec<char>) -> (r: Result<
    (Vec<Vec<char>>, Vec<AliasLabel>, Vec<JumpLabel>),
    AsmError,
>)
    ensures
        match r {
            Ok(t) => match scan_lines(normalized_lines(file@)) {
                Ok(st) => views_of(t.0@) == st.out && aliases_view(t.1@) == st.aliases
                    && addresses_assigned(st.labels, labels_view(t.2@)),
                Err(_) => false,
            },
            Err(e) => scan_lines(normalized_lines(file@)) == Err::<ScanState, ErrS>(e@),
        },
{
    let lines = normalize_source(file);
    match scan(&lines) {
        Err(e) => Err(e),
        Ok((out, aliases, labels)) => {
            let labels = assign_addresses(labels);
            Ok((out, aliases, labels))
        },
    }
}

} // verus!
