//! Alias and jump-label tables, and address assignment.
//!
//! A jump label owns a contiguous run of instructions and data bytes.
//! Addresses start at the base 0x200; a label literally named `START`,
//! wherever it is declared, is placed first, and all remaining labels
//! follow in declaration order, each starting where the previous ends.

use vstd::prelude::*;
use crate::numbers::hex_render;
use crate::numbers::render_hex;

verus! {

/// The base address of the program space.
pub open spec fn base_address() -> nat {
    0x200
}

/// One past the largest address of the 12-bit address space.
pub open spec fn address_space_end() -> nat {
    0x1000
}

/// A one-shot textual substitution rule.
pub struct AliasLabel {
    /// Replace this token ...
    pub from: Vec<char>,
    /// ... with this one.
    pub to: Vec<char>,
}

/// Mathematical model of an alias.
pub struct AliasModel {
    /// Replace this token ...
    pub from: Seq<char>,
    /// ... with this one.
    pub to: Seq<char>,
}

impl View for AliasLabel {
    type V = AliasModel;

    open spec fn view(&self) -> AliasModel {
        AliasModel { from: self.from@, to: self.to@ }
    }
}

/// A named address anchor owning a run of instructions and data.
pub struct JumpLabel {
    /// Name in source code.
    pub name: Vec<char>,
    /// Address in memory; a sentinel until addresses are assigned.
    pub address: u16,
    /// The address cached as a substitutable token: `0X` then three
    /// uppercase hexadecimal digits.
    pub address_str: Vec<char>,
    /// Size in bytes: 2 per instruction line, 1 per raw data token.
    pub size: u16,
    /// The normalized instruction lines and data bytes of the label.
    pub instructions: Vec<Vec<char>>,
}

/// Mathematical model of a jump label.
pub struct LabelModel {
    /// Name in source code.
    pub name: Seq<char>,
    /// Address in memory.
    pub address: nat,
    /// The address cached as a substitutable token.
    pub address_str: Seq<char>,
    /// Size in bytes.
    pub size: nat,
    /// The normalized instruction lines and data bytes of the label.
    pub instructions: Seq<Seq<char>>,
}

impl View for JumpLabel {
    type V = LabelModel;

    open spec fn view(&self) -> LabelModel {
        LabelModel {
            name: self.name@,
            address: self.address as nat,
            address_str: self.address_str@,
            size: self.size as nat,
            instructions: self.instructions@.map_values(|l: Vec<char>| l@),
        }
    }
}

/// The models of a vector of jump labels.
pub open spec fn labels_view(ls: Seq<JumpLabel>) -> Seq<LabelModel> {
    ls.map_values(|l: JumpLabel| l@)
}

/// The models of a vector of aliases.
pub open spec fn aliases_view(ls: Seq<AliasLabel>) -> Seq<AliasModel> {
    ls.map_values(|a: AliasLabel| a@)
}

/// Is this the privileged first-placed label?
pub open spec fn is_start(l: LabelModel) -> bool {
    l.name == "START"@
}

/// Sum of the sizes of the labels among the first `k` whose
/// START-status equals `pick_start`.
pub open spec fn sum_pick(ls: Seq<LabelModel>, pick_start: bool, k: int) -> nat
    decreases k,
{
    if k <= 0 || k > ls.len() {
        0
    } else {
        sum_pick(ls, pick_start, k - 1) + if is_start(ls[k - 1]) == pick_start {
            ls[k - 1].size
        } else {
            0
        }
    }
}

/// Total size in bytes of all labels.
pub open spec fn total_size(ls: Seq<LabelModel>) -> nat
    decreases ls.len(),
{
    if ls.len() == 0 {
        0
    } else {
        total_size(ls.drop_last()) + ls.last().size
    }
}

/// The address the placement rule gives label `i`: START-named labels
/// first, then the rest, each class in declaration order, each label
/// starting where the one placed before it ends.
pub open spec fn addr_of(ls: Seq<LabelModel>, i: int) -> nat {
    if is_start(ls[i]) {
        base_address() + sum_pick(ls, true, i)
    } else {
        base_address() + sum_pick(ls, true, ls.len() as int) + sum_pick(ls, false, i)
    }
}

/// The cached, substitutable form of an address: `0X` then three
/// uppercase hexadecimal digits.
pub open spec fn addr_str(a: nat) -> Seq<char> {
    seq!['0', 'X'] + hex_render(a, 3)
}

/// `out` is `orig` with every label's address (and its cached string)
/// filled in by the placement rule, all else unchanged.
pub open spec fn addresses_assigned(orig: Seq<LabelModel>, out: Seq<LabelModel>) -> bool {
    &&& out.len() == orig.len()
    &&& forall|i: int|
        0 <= i < orig.len() ==> #[trigger] out[i] == (LabelModel {
            address: addr_of(orig, i),
            address_str: addr_str(addr_of(orig, i)),
            ..orig[i]
        })
}

/// `sum_pick` grows with its prefix bound.
pub proof fn lemma_sum_pick_mono(ls: Seq<LabelModel>, b: bool, i: int, j: int)
    requires
        i <= j <= ls.len(),
    ensures
        sum_pick(ls, b, i) <= sum_pick(ls, b, j),
    decreases j - i,
{
    if i < j {
        lemma_sum_pick_mono(ls, b, i, j - 1);
    }
}

/// The total size splits into the two placement classes.
pub proof fn lemma_total_split(ls: Seq<LabelModel>)
    ensures
        total_size(ls) == sum_pick(ls, true, ls.len() as int) + sum_pick(
            ls,
            false,
            ls.len() as int,
        ),
    decreases ls.len(),
{
    if ls.len() > 0 {
        let n = ls.len() as int;
        lemma_total_split(ls.drop_last());
        assert(ls.drop_last().len() == n - 1);
        lemma_sum_pick_drop_last(ls, true, n - 1);
        lemma_sum_pick_drop_last(ls, false, n - 1);
        assert(ls.last() == ls[n - 1]);
        assert(sum_pick(ls, true, n) == sum_pick(ls, true, n - 1) + if is_start(ls[n - 1]) {
            ls[n - 1].size
        } else {
            0nat
        });
        assert(sum_pick(ls, false, n) == sum_pick(ls, false, n - 1) + if !is_start(ls[n - 1]) {
            ls[n - 1].size
        } else {
            0nat
        });
    }
}

/// Dropping the last label does not change prefix sums short of it.
proof fn lemma_sum_pick_drop_last(ls: Seq<LabelModel>, b: bool, k: int)
    requires
        0 <= k < ls.len(),
    ensures
        sum_pick(ls.drop_last(), b, k) == sum_pick(ls, b, k),
    decreases k,
{
    if k > 0 {
        lemma_sum_pick_drop_last(ls, b, k - 1);
    }
}

/// Any byte offset below a class's total falls inside some label of
/// that class.
proof fn lemma_sum_pick_cover(ls: Seq<LabelModel>, b: bool, x: nat, k: int)
    requires
        0 <= k <= ls.len(),
        x < sum_pick(ls, b, k),
    ensures
        exists|i: int|
            0 <= i < k && is_start(ls[i]) == b && sum_pick(ls, b, i) <= x && x < sum_pick(ls, b, i)
                + ls[i].size,
    decreases k,
{
    if k > 0 {
        if x < sum_pick(ls, b, k - 1) {
            lemma_sum_pick_cover(ls, b, x, k - 1);
        } else {
            assert(is_start(ls[k - 1]) == b && sum_pick(ls, b, k - 1) <= x && x < sum_pick(
                ls,
                b,
                k - 1,
            ) + ls[k - 1].size);
        }
    }
}

/// Label `i` is placed before label `j`: START-named labels come first,
/// then the rest, each class in declaration order.
pub open spec fn placed_before(ls: Seq<LabelModel>, i: int, j: int) -> bool {
    &&& 0 <= i < ls.len()
    &&& 0 <= j < ls.len()
    &&& if is_start(ls[i]) != is_start(ls[j]) {
        is_start(ls[i])
    } else {
        i < j
    }
}

/// Law: once addresses are assigned, the labels' byte ranges
/// `[address, address + size)` partition the program space
/// `[0x200, 0x200 + total size)`: every range lies inside it, ranges of
/// distinct labels do not overlap, every byte of it belongs to some
/// label, and the ranges are ordered START-first then declaration order.
pub proof fn lemma_label_ranges_partition(orig: Seq<LabelModel>, out: Seq<LabelModel>)
    requires
        addresses_assigned(orig, out),
    ensures
        forall|i: int|
            0 <= i < out.len() ==> base_address() <= #[trigger] out[i].address && out[i].address
                + out[i].size <= base_address() + total_size(orig),
        forall|i: int, j: int|
            placed_before(orig, i, j) ==> #[trigger] out[i].address + out[i].size
                <= #[trigger] out[j].address,
        forall|i: int, j: int|
            0 <= i < out.len() && 0 <= j < out.len() && i != j ==> (#[trigger] out[i].address
                + out[i].size <= #[trigger] out[j].address || out[j].address + out[j].size
                <= out[i].address),
{
    let n = orig.len() as int;
    lemma_total_split(orig);
    // Every range lies inside the program space.
    assert forall|i: int|
        0 <= i < out.len() implies base_address() <= #[trigger] out[i].address && out[i].address
        + out[i].size <= base_address() + total_size(orig) by {
        if is_start(orig[i]) {
            lemma_sum_pick_mono(orig, true, i + 1, n);
        } else {
            lemma_sum_pick_mono(orig, false, i + 1, n);
        }
    }
    // Placement order implies address order.
    assert forall|i: int, j: int| placed_before(orig, i, j) implies #[trigger] out[i].address
        + out[i].size <= #[trigger] out[j].address by {
        if is_start(orig[i]) && is_start(orig[j]) {
            lemma_sum_pick_mono(orig, true, i + 1, j);
        } else if is_start(orig[i]) && !is_start(orig[j]) {
            lemma_sum_pick_mono(orig, true, i + 1, n);
        } else {
            lemma_sum_pick_mono(orig, false, i + 1, j);
        }
    }
    // Distinct labels never overlap.
    assert forall|i: int, j: int|
        0 <= i < out.len() && 0 <= j < out.len() && i != j implies (#[trigger] out[i].address
        + out[i].size <= #[trigger] out[j].address || out[j].address + out[j].size
        <= out[i].address) by {
        assert(placed_before(orig, i, j) || placed_before(orig, j, i));
    }
}

/// Law: every byte of the program space `[0x200, 0x200 + total size)`
/// falls inside the range of some label.
pub proof fn lemma_label_covers(orig: Seq<LabelModel>, out: Seq<LabelModel>, a: int)
    requires
        addresses_assigned(orig, out),
        base_address() <= a < base_address() + total_size(orig),
    ensures
        exists|i: int|
            0 <= i < out.len() && #[trigger] out[i].address <= a && a < out[i].address
                + out[i].size,
{
    let n = orig.len() as int;
    lemma_total_split(orig);
    let x = (a - base_address()) as nat;
    let st = sum_pick(orig, true, n);
    if x < st {
        lemma_sum_pick_cover(orig, true, x, n);
        let i = choose|i: int|
            0 <= i < n && is_start(orig[i]) && sum_pick(orig, true, i) <= x && x < sum_pick(
                orig,
                true,
                i,
            ) + orig[i].size;
        assert(out[i].address <= a && a < out[i].address + out[i].size);
    } else {
        let y = (x - st) as nat;
        lemma_sum_pick_cover(orig, false, y, n);
        let i = choose|i: int|
            0 <= i < n && !is_start(orig[i]) && sum_pick(orig, false, i) <= y && y < sum_pick(
                orig,
                false,
                i,
            ) + orig[i].size;
        assert(out[i].address <= a && a < out[i].address + out[i].size);
    }
}

/// Compare a token with a string literal.
pub fn tok_eq_str(t: &Vec<char>, s: &str) -> (r: bool)
    ensures
        r == (t@ == s@),
{
    let n = s.unicode_len();
    if t.len() != n {
        return false;
    }
    let mut i: usize = 0;
    while i < n
        invariant
            0 <= i <= n,
            n == s@.len(),
            t@.len() == n,
            forall|j: int| 0 <= j < i ==> t@[j] == s@[j],
        decreases n - i,
    {
        if t[i] != s.get_char(i) {
            return false;
        }
        i += 1;
    }
    proof {
        assert(t@ =~= s@);
    }
    true
}

/// The cached, substitutable form of an address, as a token.
pub fn addr_str_vec(a: u16) -> (out: Vec<char>)
    ensures
        out@ == addr_str(a as nat),
{
    let mut out: Vec<char> = Vec::new();
    out.push('0');
    out.push('X');
    let mut h = render_hex(a as u64, 3);
    out.append(&mut h);
    proof {
        assert(out@ =~= addr_str(a as nat));
    }
    out
}

/// Assign every label its address under the placement rule, and cache
/// its substitutable address string; names, sizes and instruction lists
/// are untouched.
pub fn assign_addresses(labels: Vec<JumpLabel>) -> (out: Vec<JumpLabel>)
    requires
        base_address() + total_size(labels_view(labels@)) <= address_space_end(),
    ensures
        addresses_assigned(labels_view(labels@), labels_view(out@)),
{
    let ghost orig = labels_view(labels@);
    let ghost n = orig.len() as int;
    proof {
        lemma_total_split(orig);
    }
    // Total size of the START-named labels.
    let mut start_total: u16 = 0;
    let mut i: usize = 0;
    while i < labels.len()
        invariant
            0 <= i <= labels@.len(),
            orig == labels_view(labels@),
            sum_pick(orig, true, orig.len() as int) + sum_pick(orig, false, orig.len() as int)
                + base_address() <= address_space_end(),
            start_total as nat == sum_pick(orig, true, i as int),
        decreases labels@.len() - i,
    {
        proof {
            lemma_sum_pick_mono(orig, true, i + 1, orig.len() as int);
        }
        if tok_eq_str(&labels[i].name, "START") {
            start_total = start_total + labels[i].size;
        }
        i += 1;
    }
    // Single pass: a cursor per placement class.
    let mut cursor_start: u16 = 0x200;
    let mut cursor_rest: u16 = 0x200 + start_total;
    let mut rest = labels;
    let mut out: Vec<JumpLabel> = Vec::new();
    proof {
        assert(labels_view(rest@) =~= orig.skip(0));
    }
    while rest.len() > 0
        invariant
            out@.len() <= orig.len(),
            labels_view(rest@) =~= orig.skip(out@.len() as int),
            sum_pick(orig, true, orig.len() as int) + sum_pick(orig, false, orig.len() as int)
                + base_address() <= address_space_end(),
            cursor_start as nat == base_address() + sum_pick(orig, true, out@.len() as int),
            cursor_rest as nat == base_address() + sum_pick(orig, true, orig.len() as int)
                + sum_pick(orig, false, out@.len() as int),
            forall|k: int|
                0 <= k < out@.len() ==> #[trigger] labels_view(out@)[k] == (LabelModel {
                    address: addr_of(orig, k),
                    address_str: addr_str(addr_of(orig, k)),
                    ..orig[k]
                }),
        decreases rest@.len(),
    {
        let ghost k = out@.len() as int;
        let ghost rv = rest@;
        proof {
            assert(labels_view(rv).len() == rv.len());
            assert(0 <= k <= orig.len());
            assert(orig.skip(k).len() == orig.len() - k);
            assert(k < orig.len());
        }
        let l = rest.remove(0);
        proof {
            assert(l == rv[0]);
            assert(labels_view(rv)[0] == rv[0]@);
            assert(labels_view(rv)[0] == orig.skip(k)[0]);
            assert(orig.skip(k)[0] == orig[k]);
            assert(l@ == orig[k]);
            assert(rest@ == rv.remove(0));
            assert forall|m: int| 0 <= m < rest@.len() implies labels_view(rest@)[m] == orig.skip(
                k + 1,
            )[m] by {
                assert(rest@[m] == rv[m + 1]);
                assert(labels_view(rest@)[m] == rest@[m]@);
                assert(labels_view(rv)[m + 1] == rv[m + 1]@);
                assert(labels_view(rv)[m + 1] == orig.skip(k)[m + 1]);
                assert(orig.skip(k)[m + 1] == orig[k + 1 + m]);
                assert(orig.skip(k + 1)[m] == orig[k + 1 + m]);
            }
            assert(labels_view(rest@) =~= orig.skip(k + 1));
            lemma_sum_pick_mono(orig, true, k + 1, orig.len() as int);
            lemma_sum_pick_mono(orig, false, k + 1, orig.len() as int);
        }
        let addr: u16;
        if tok_eq_str(&l.name, "START") {
            addr = cursor_start;
            cursor_start = cursor_start + l.size;
        } else {
            addr = cursor_rest;
            cursor_rest = cursor_rest + l.size;
        }
        let astr = addr_str_vec(addr);
        let nl = JumpLabel { address: addr, address_str: astr, ..l };
        proof {
            assert(nl@ == (LabelModel {
                address: addr_of(orig, k),
                address_str: addr_str(addr_of(orig, k)),
                ..orig[k]
            }));
        }
        let ghost ov = out@;
        out.push(nl);
        proof {
            assert(out@ == ov.push(nl));
            assert forall|m: int| 0 <= m < out@.len() implies #[trigger] labels_view(out@)[m]
                == (LabelModel {
                address: addr_of(orig, m),
                address_str: addr_str(addr_of(orig, m)),
                ..orig[m]
            }) by {
                assert(labels_view(out@)[m] == out@[m]@);
                if m < k {
                    assert(out@[m] == ov[m]);
                    assert(labels_view(ov)[m] == ov[m]@);
                } else {
                    assert(out@[m] == nl);
                }
            }
        }
    }
    proof {
        assert(labels_view(out@).len() == orig.len());
    }
    out
}

} // verus!
