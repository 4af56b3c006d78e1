//! The two-pass driver. Pass one walks the classified lines and binds each
//! label to the address of the next emitted instruction; pass two walks
//! them again, resolves or allocates symbols and emits one 16-character
//! binary instruction per address or compute command.

use vstd::prelude::*;

use crate::code::{
    bin_bits, dec_val, encode_address, is_bit_string, is_numeric, is_numeric_text,
    lemma_bin_bits_len, lemma_bin_bits_shape, parse_address,
};
use crate::errors::{AsmError, AsmErrorKind};
use crate::parser::{
    classify, encode_compute, lemma_compute_instruction_shape, spec_classify,
    spec_encode_compute, CmdView, Command,
};
use crate::symbol_table::{predefined_symbols, SymbolTable};

verus! {

/// The state pass one threads through the lines: the table built so far
/// and the address of the next emitted instruction.
pub struct Pass1State {
    pub table: Map<Seq<char>, usize>,
    pub counter: usize,
}

/// How pass one treats one line: address and compute commands consume an
/// instruction address, a label binds its name to the current one.
pub open spec fn spec_pass1_step(st: Pass1State, raw: Seq<char>) -> Result<
    Pass1State,
    AsmErrorKind,
> {
    match spec_classify(raw) {
        Err(k) => Err(k),
        Ok(CmdView::Address(_)) => Ok(
            Pass1State { table: st.table, counter: (st.counter + 1) as usize },
        ),
        Ok(CmdView::Compute(_)) => Ok(
            Pass1State { table: st.table, counter: (st.counter + 1) as usize },
        ),
        Ok(CmdView::Label(name)) => Ok(
            Pass1State { table: st.table.insert(name, st.counter), counter: st.counter },
        ),
        Ok(CmdView::Ignore) => Ok(st),
    }
}

/// Pass one over the first `n` lines, starting from the predefined table.
pub open spec fn spec_pass1_upto(lines: Seq<Seq<char>>, n: int) -> Result<
    Pass1State,
    (int, AsmErrorKind),
>
    decreases n,
{
    if n <= 0 {
        Ok(Pass1State { table: predefined_symbols(), counter: 0 })
    } else {
        match spec_pass1_upto(lines, n - 1) {
            Err(e) => Err(e),
            Ok(st) => match spec_pass1_step(st, lines[n - 1]) {
                Ok(st2) => Ok(st2),
                Err(k) => Err((n - 1, k)),
            },
        }
    }
}

/// Pass one over the whole program.
pub open spec fn spec_pass1(lines: Seq<Seq<char>>) -> Result<Pass1State, (int, AsmErrorKind)> {
    spec_pass1_upto(lines, lines.len() as int)
}

/// The state pass two threads through the lines: the table (with labels
/// already bound), the next free variable address, and the instructions
/// emitted so far.
pub struct Pass2State {
    pub table: Map<Seq<char>, usize>,
    pub next_var: usize,
    pub out: Seq<Seq<char>>,
}

/// How pass two treats an address command's payload. A decimal literal is
/// its own address and never touches the table; a known symbol resolves to
/// its binding; an unknown one is a fresh variable and receives the next
/// free address. Any address beyond 15 bits is a range fault.
pub open spec fn spec_encode_a(st: Pass2State, sym: Seq<char>) -> Result<
    Pass2State,
    AsmErrorKind,
> {
    if is_numeric(sym) {
        if dec_val(sym) <= 32767 {
            Ok(
                Pass2State {
                    table: st.table,
                    next_var: st.next_var,
                    out: st.out.push(bin_bits(dec_val(sym), 16)),
                },
            )
        } else {
            Err(AsmErrorKind::AddressRange)
        }
    } else if st.table.contains_key(sym) {
        if st.table[sym] <= 32767 {
            Ok(
                Pass2State {
                    table: st.table,
                    next_var: st.next_var,
                    out: st.out.push(bin_bits(st.table[sym] as int, 16)),
                },
            )
        } else {
            Err(AsmErrorKind::AddressRange)
        }
    } else {
        if st.next_var <= 32767 {
            Ok(
                Pass2State {
                    table: st.table.insert(sym, st.next_var),
                    next_var: (st.next_var + 1) as usize,
                    out: st.out.push(bin_bits(st.next_var as int, 16)),
                },
            )
        } else {
            Err(AsmErrorKind::AddressRange)
        }
    }
}

/// How pass two treats one line: labels and ignorable lines emit nothing,
/// address and compute commands emit one instruction each.
pub open spec fn spec_pass2_step(st: Pass2State, raw: Seq<char>) -> Result<
    Pass2State,
    AsmErrorKind,
> {
    match spec_classify(raw) {
        Err(k) => Err(k),
        Ok(CmdView::Ignore) => Ok(st),
        Ok(CmdView::Label(_)) => Ok(st),
        Ok(CmdView::Address(sym)) => spec_encode_a(st, sym),
        Ok(CmdView::Compute(t)) => match spec_encode_compute(t) {
            Ok(bits) => Ok(
                Pass2State { table: st.table, next_var: st.next_var, out: st.out.push(bits) },
            ),
            Err(k) => Err(k),
        },
    }
}

/// Pass two over the first `n` lines, starting from table `t0` with the
/// variable allocator at 16.
pub open spec fn spec_pass2_upto(lines: Seq<Seq<char>>, t0: Map<Seq<char>, usize>, n: int) -> Result<
    Pass2State,
    (int, AsmErrorKind),
>
    decreases n,
{
    if n <= 0 {
        Ok(Pass2State { table: t0, next_var: 16, out: Seq::empty() })
    } else {
        match spec_pass2_upto(lines, t0, n - 1) {
            Err(e) => Err(e),
            Ok(st) => match spec_pass2_step(st, lines[n - 1]) {
                Ok(st2) => Ok(st2),
                Err(k) => Err((n - 1, k)),
            },
        }
    }
}

/// The whole translation: pass one binds labels, pass two emits the
/// instruction sequence, in source order.
pub open spec fn spec_assemble(lines: Seq<Seq<char>>) -> Result<
    Seq<Seq<char>>,
    (int, AsmErrorKind),
> {
    match spec_pass1(lines) {
        Err(e) => Err(e),
        Ok(p1) => match spec_pass2_upto(lines, p1.table, lines.len() as int) {
            Err(e) => Err(e),
            Ok(st) => Ok(st.out),
        },
    }
}

proof fn lemma_pass1_error_stable(lines: Seq<Seq<char>>, m: int, n: int)
    requires
        0 <= m <= n,
        spec_pass1_upto(lines, m) is Err,
    ensures
        spec_pass1_upto(lines, n) == spec_pass1_upto(lines, m),
    decreases n - m,
{
    if m < n {
        lemma_pass1_error_stable(lines, m, n - 1);
    }
}

proof fn lemma_pass2_error_stable(lines: Seq<Seq<char>>, t0: Map<Seq<char>, usize>, m: int, n: int)
    requires
        0 <= m <= n,
        spec_pass2_upto(lines, t0, m) is Err,
    ensures
        spec_pass2_upto(lines, t0, n) == spec_pass2_upto(lines, t0, m),
    decreases n - m,
{
    if m < n {
        lemma_pass2_error_stable(lines, t0, m, n - 1);
    }
}

/// Runs pass one: builds the symbol table holding the predefined symbols
/// and every label, bound to the address of the instruction that follows
/// it. An error names the offending 1-based source line.
pub fn pass1(lines: &Vec<String>) -> (r: Result<SymbolTable, AsmError>)
    ensures
        match r {
            Ok(t) => spec_pass1(lines.deep_view()) matches Ok(st) && t@ == st.table,
            Err(e) => e.line >= 1 && spec_pass1(lines.deep_view()) == Err::<Pass1State, _>(
                ((e.line - 1) as int, e.kind),
            ),
        },
{
    let ghost lv = lines.deep_view();
    let mut table = SymbolTable::new();
    let mut counter: usize = 0;
    let n = lines.len();
    let mut i: usize = 0;
    while i < n
        invariant
            0 <= i <= n,
            n == lines@.len(),
            lv == lines.deep_view(),
            spec_pass1_upto(lv, i as int) matches Ok(st) && st.table == table@ && st.counter
                == counter,
            counter <= i,
        decreases n - i,
    {
        proof {
            assert(lv[i as int] == lines@[i as int]@);
        }
        let line = &lines[i];
        match classify(line.as_str()) {
            Ok(Command::Address(_)) => {
                counter = counter + 1;
            },
            Ok(Command::Compute(_)) => {
                counter = counter + 1;
            },
            Ok(Command::Label(name)) => {
                table.add_entry(name, counter);
            },
            Ok(Command::Ignore) => {},
            Err(k) => {
                proof {
                    assert(spec_pass1_upto(lv, i + 1) == Err::<Pass1State, (int, AsmErrorKind)>(
                        (i as int, k),
                    ));
                    lemma_pass1_error_stable(lv, i + 1, lv.len() as int);
                }
                return Err(AsmError { kind: k, line: i + 1 });
            },
        }
        i = i + 1;
    }
    Ok(table)
}

/// Translates the whole program: pass one, then pass two over the same
/// lines. On success the result holds one 16-character binary instruction
/// per address or compute command, in source order; an error names the
/// offending 1-based source line and what was wrong with it.
pub fn assemble(lines: &Vec<String>) -> (r: Result<Vec<String>, AsmError>)
    ensures
        match r {
            Ok(out) => spec_assemble(lines.deep_view()) == Ok::<_, (int, AsmErrorKind)>(
                out.deep_view(),
            ),
            Err(e) => e.line >= 1 && spec_assemble(lines.deep_view()) == Err::<Seq<Seq<char>>, _>(
                ((e.line - 1) as int, e.kind),
            ),
        },
{
    let ghost lv = lines.deep_view();
    let mut table = match pass1(lines) {
        Ok(t) => t,
        Err(e) => {
            return Err(e);
        },
    };
    let ghost t0 = table@;
    let mut next_var: usize = 16;
    let mut out: Vec<String> = Vec::new();
    proof {
        assert(out.deep_view() =~= Seq::<Seq<char>>::empty());
    }
    let n = lines.len();
    let mut i: usize = 0;
    while i < n
        invariant
            0 <= i <= n,
            n == lines@.len(),
            lv == lines.deep_view(),
            spec_pass1(lv) matches Ok(p1) && p1.table == t0,
            spec_pass2_upto(lv, t0, i as int) matches Ok(st) && st.table == table@ && st.next_var
                == next_var && st.out == out.deep_view(),
            16 <= next_var <= 32768,
        decreases n - i,
    {
        proof {
            assert(lv[i as int] == lines@[i as int]@);
        }
        let ghost out_before = out.deep_view();
        let line = &lines[i];
        match classify(line.as_str()) {
            Ok(Command::Address(sym)) => {
                if is_numeric_text(sym.as_str()) {
                    match parse_address(sym.as_str()) {
                        Some(v) => {
                            let s = encode_address(v);
                            out.push(s);
                            proof {
                                assert(out.deep_view() =~= out_before.push(
                                    bin_bits(dec_val(sym@), 16),
                                ));
                            }
                        },
                        None => {
                            proof {
                                assert(spec_pass2_upto(lv, t0, i + 1)
                                    == Err::<Pass2State, (int, AsmErrorKind)>((i as int, AsmErrorKind::AddressRange)));
                                lemma_pass2_error_stable(lv, t0, i + 1, lv.len() as int);
                            }
                            return Err(
                                AsmError { kind: AsmErrorKind::AddressRange, line: i + 1 },
                            );
                        },
                    }
                } else if table.contains(sym.as_str()) {
                    let a = table.get_address(sym.as_str());
                    if a <= 32767 {
                        let s = encode_address(a);
                        out.push(s);
                        proof {
                            assert(out.deep_view() =~= out_before.push(bin_bits(a as int, 16)));
                        }
                    } else {
                        proof {
                            assert(spec_pass2_upto(lv, t0, i + 1)
                                == Err::<Pass2State, (int, AsmErrorKind)>((
                                i as int,
                                AsmErrorKind::AddressRange,
                            )));
                            lemma_pass2_error_stable(lv, t0, i + 1, lv.len() as int);
                        }
                        return Err(AsmError { kind: AsmErrorKind::AddressRange, line: i + 1 });
                    }
                } else {
                    if next_var <= 32767 {
                        let a = next_var;
                        let s = encode_address(a);
                        table.add_entry(sym, a);
                        next_var = next_var + 1;
                        out.push(s);
                        proof {
                            assert(out.deep_view() =~= out_before.push(bin_bits(a as int, 16)));
                        }
                    } else {
                        proof {
                            assert(spec_pass2_upto(lv, t0, i + 1)
                                == Err::<Pass2State, (int, AsmErrorKind)>((
                                i as int,
                                AsmErrorKind::AddressRange,
                            )));
                            lemma_pass2_error_stable(lv, t0, i + 1, lv.len() as int);
                        }
                        return Err(AsmError { kind: AsmErrorKind::AddressRange, line: i + 1 });
                    }
                }
            },
            Ok(Command::Compute(txt)) => {
                match encode_compute(txt.as_str()) {
                    Ok(s) => {
                        let ghost sv = s@;
                        out.push(s);
                        proof {
                            assert(out.deep_view() =~= out_before.push(sv));
                        }
                    },
                    Err(k) => {
                        proof {
                            assert(spec_pass2_upto(lv, t0, i + 1)
                                == Err::<Pass2State, (int, AsmErrorKind)>((i as int, k)));
                            lemma_pass2_error_stable(lv, t0, i + 1, lv.len() as int);
                        }
                        return Err(AsmError { kind: k, line: i + 1 });
                    },
                }
            },
            Ok(Command::Label(_)) => {},
            Ok(Command::Ignore) => {},
            Err(k) => {
                proof {
                    assert(spec_pass2_upto(lv, t0, i + 1)
                        == Err::<Pass2State, (int, AsmErrorKind)>((i as int, k)));
                    lemma_pass2_error_stable(lv, t0, i + 1, lv.len() as int);
                }
                return Err(AsmError { kind: k, line: i + 1 });
            },
        }
        i = i + 1;
    }
    Ok(out)
}

/// The number of instruction-emitting lines (address or compute commands)
/// among the first `n` lines.
pub open spec fn rom_count(lines: Seq<Seq<char>>, n: int) -> int
    decreases n,
{
    if n <= 0 {
        0
    } else {
        rom_count(lines, n - 1) + match spec_classify(lines[n - 1]) {
            Ok(CmdView::Address(_)) => 1int,
            Ok(CmdView::Compute(_)) => 1int,
            _ => 0int,
        }
    }
}

proof fn lemma_pass1_ok_prefix(lines: Seq<Seq<char>>, m: int, n: int)
    requires
        0 <= m <= n,
        spec_pass1_upto(lines, n) is Ok,
    ensures
        spec_pass1_upto(lines, m) is Ok,
    decreases n - m,
{
    if m < n {
        assert(spec_pass1_upto(lines, n - 1) is Ok);
        lemma_pass1_ok_prefix(lines, m, n - 1);
    }
}

/// Pass one's instruction counter counts exactly the address and compute
/// lines seen so far.
pub proof fn lemma_pass1_counter(lines: Seq<Seq<char>>, n: int)
    requires
        0 <= n <= usize::MAX,
        spec_pass1_upto(lines, n) is Ok,
    ensures
        (spec_pass1_upto(lines, n)->Ok_0).counter == rom_count(lines, n),
        rom_count(lines, n) <= n,
    decreases n,
{
    if n > 0 {
        lemma_pass1_ok_prefix(lines, n - 1, n);
        lemma_pass1_counter(lines, n - 1);
    }
}

/// A label binds to the count of instruction-emitting lines strictly
/// before it: once pass one has run past line `i`, a label declared there
/// and never re-declared later stays bound to that count, which is the
/// address of the instruction emitted next.
pub proof fn lemma_label_binding(lines: Seq<Seq<char>>, name: Seq<char>, i: int, n: int)
    requires
        0 <= i < n <= usize::MAX,
        spec_pass1_upto(lines, n) is Ok,
        spec_classify(lines[i]) == Ok::<CmdView, AsmErrorKind>(CmdView::Label(name)),
        forall|j: int|
            i < j < n ==> #[trigger] spec_classify(lines[j]) != Ok::<CmdView, AsmErrorKind>(
                CmdView::Label(name),
            ),
    ensures
        (spec_pass1_upto(lines, n)->Ok_0).table.contains_key(name),
        (spec_pass1_upto(lines, n)->Ok_0).table[name] == rom_count(lines, i),
    decreases n,
{
    if n == i + 1 {
        lemma_pass1_ok_prefix(lines, i, n);
        lemma_pass1_counter(lines, i);
    } else {
        lemma_pass1_ok_prefix(lines, n - 1, n);
        lemma_label_binding(lines, name, i, n - 1);
        assert(spec_classify(lines[n - 1]) != Ok::<CmdView, AsmErrorKind>(CmdView::Label(name)));
    }
}

proof fn lemma_pass2_ok_prefix(lines: Seq<Seq<char>>, t0: Map<Seq<char>, usize>, m: int, n: int)
    requires
        0 <= m <= n,
        spec_pass2_upto(lines, t0, n) is Ok,
    ensures
        spec_pass2_upto(lines, t0, m) is Ok,
    decreases n - m,
{
    if m < n {
        assert(spec_pass2_upto(lines, t0, n - 1) is Ok);
        lemma_pass2_ok_prefix(lines, t0, m, n - 1);
    }
}

/// Variable allocation is monotone: pass two never disturbs a binding that
/// already exists, and every symbol it adds between two points of the run
/// receives an address at or above the allocator's earlier cursor and
/// below its later one. In particular a variable first seen earlier holds
/// a strictly smaller address than one first seen later.
pub proof fn lemma_pass2_allocation(
    lines: Seq<Seq<char>>,
    t0: Map<Seq<char>, usize>,
    m: int,
    n: int,
    st1: Pass2State,
    st2: Pass2State,
)
    requires
        0 <= m <= n,
        spec_pass2_upto(lines, t0, m) == Ok::<Pass2State, (int, AsmErrorKind)>(st1),
        spec_pass2_upto(lines, t0, n) == Ok::<Pass2State, (int, AsmErrorKind)>(st2),
    ensures
        16 <= st1.next_var <= st2.next_var,
        forall|s: Seq<char>| #[trigger]
            st1.table.contains_key(s) ==> st2.table.contains_key(s) && st2.table[s]
                == st1.table[s],
        forall|s: Seq<char>| #[trigger]
            st2.table.contains_key(s) && !st1.table.contains_key(s) ==> st1.next_var
                <= st2.table[s] < st2.next_var,
    decreases n - m,
{
    if m == n {
        lemma_pass2_next_var_low(lines, t0, m, st1);
    } else {
        lemma_pass2_ok_prefix(lines, t0, n - 1, n);
        let prev = spec_pass2_upto(lines, t0, n - 1)->Ok_0;
        lemma_pass2_allocation(lines, t0, m, n - 1, st1, prev);
    }
}

proof fn lemma_pass2_next_var_low(
    lines: Seq<Seq<char>>,
    t0: Map<Seq<char>, usize>,
    n: int,
    st: Pass2State,
)
    requires
        0 <= n,
        spec_pass2_upto(lines, t0, n) == Ok::<Pass2State, (int, AsmErrorKind)>(st),
    ensures
        16 <= st.next_var,
    decreases n,
{
    if n > 0 {
        lemma_pass2_ok_prefix(lines, t0, n - 1, n);
        let prev = spec_pass2_upto(lines, t0, n - 1)->Ok_0;
        lemma_pass2_next_var_low(lines, t0, n - 1, prev);
    }
}

/// The variables pass two allocates all receive distinct addresses, each
/// at least 16 and below the allocator's final cursor.
pub proof fn lemma_pass2_distinct(
    lines: Seq<Seq<char>>,
    t0: Map<Seq<char>, usize>,
    n: int,
    st: Pass2State,
)
    requires
        0 <= n,
        spec_pass2_upto(lines, t0, n) == Ok::<Pass2State, (int, AsmErrorKind)>(st),
    ensures
        forall|s: Seq<char>| #[trigger]
            st.table.contains_key(s) && !t0.contains_key(s) ==> 16 <= st.table[s] < st.next_var,
        forall|s1: Seq<char>, s2: Seq<char>|
            #![trigger st.table[s1], st.table[s2]]
            st.table.contains_key(s1) && st.table.contains_key(s2) && !t0.contains_key(s1)
                && !t0.contains_key(s2) && s1 != s2 ==> st.table[s1] != st.table[s2],
    decreases n,
{
    if n > 0 {
        lemma_pass2_ok_prefix(lines, t0, n - 1, n);
        let prev = spec_pass2_upto(lines, t0, n - 1)->Ok_0;
        lemma_pass2_distinct(lines, t0, n - 1, prev);
        lemma_pass2_allocation(lines, t0, n - 1, n, prev, st);
    }
}

/// A numeric address operand is its own address: encoding it emits its
/// 16-bit rendering and leaves the table and the allocator untouched.
pub proof fn lemma_numeric_bypasses_table(st: Pass2State, sym: Seq<char>)
    requires
        is_numeric(sym),
        spec_encode_a(st, sym) is Ok,
    ensures
        (spec_encode_a(st, sym)->Ok_0).table == st.table,
        (spec_encode_a(st, sym)->Ok_0).next_var == st.next_var,
        (spec_encode_a(st, sym)->Ok_0).out == st.out.push(bin_bits(dec_val(sym), 16)),
{
}

/// A successful run emits exactly one instruction per address or compute
/// command: labels and ignorable lines contribute no output line.
pub proof fn lemma_output_count(
    lines: Seq<Seq<char>>,
    t0: Map<Seq<char>, usize>,
    n: int,
    st: Pass2State,
)
    requires
        0 <= n,
        spec_pass2_upto(lines, t0, n) == Ok::<Pass2State, (int, AsmErrorKind)>(st),
    ensures
        st.out.len() == rom_count(lines, n),
    decreases n,
{
    if n > 0 {
        lemma_pass2_ok_prefix(lines, t0, n - 1, n);
        let prev = spec_pass2_upto(lines, t0, n - 1)->Ok_0;
        lemma_output_count(lines, t0, n - 1, prev);
    }
}

/// Every instruction pass two emits is a 16-character string of `0` and
/// `1` characters.
pub proof fn lemma_output_shape(
    lines: Seq<Seq<char>>,
    t0: Map<Seq<char>, usize>,
    n: int,
    st: Pass2State,
)
    requires
        0 <= n,
        spec_pass2_upto(lines, t0, n) == Ok::<Pass2State, (int, AsmErrorKind)>(st),
    ensures
        forall|k: int|
            0 <= k < st.out.len() ==> (#[trigger] st.out[k]).len() == 16 && is_bit_string(
                st.out[k],
            ),
    decreases n,
{
    if n > 0 {
        lemma_pass2_ok_prefix(lines, t0, n - 1, n);
        let prev = spec_pass2_upto(lines, t0, n - 1)->Ok_0;
        lemma_output_shape(lines, t0, n - 1, prev);
        match spec_classify(lines[n - 1]) {
            Ok(CmdView::Address(sym)) => {
                if is_numeric(sym) {
                    lemma_bin_bits_len(dec_val(sym), 16);
                    lemma_bin_bits_shape(dec_val(sym), 16);
                } else if prev.table.contains_key(sym) {
                    lemma_bin_bits_len(prev.table[sym] as int, 16);
                    lemma_bin_bits_shape(prev.table[sym] as int, 16);
                } else {
                    lemma_bin_bits_len(prev.next_var as int, 16);
                    lemma_bin_bits_shape(prev.next_var as int, 16);
                }
            },
            Ok(CmdView::Compute(t)) => {
                lemma_compute_instruction_shape(t);
            },
            _ => {},
        }
    }
}

} // verus!
