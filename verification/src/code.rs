//! The instruction field encoder: closed tables from dest, jump and comp
//! mnemonics to their fixed-width bit patterns, the decimal address-literal
//! parser, and the big-endian binary rendering of a 16-bit word.

use vstd::prelude::*;
use vstd::arithmetic::div_mod::lemma_fundamental_div_mod;
use vstd::arithmetic::power2::pow2;
use vstd::string::*;

use crate::text::{remove_spaces, remove_ws, spec_trim, str_eq, trim};

verus! {

broadcast use vstd::string::group_string_axioms;

/// The view of an optional borrowed string.
pub open spec fn opt_str_view(r: Option<&str>) -> Option<Seq<char>> {
    match r {
        Some(s) => Some(s@),
        None => None,
    }
}

/// The dest table: each of `A`, `D`, `M` present in the mnemonic sets its
/// own bit (bit 2, bit 1, bit 0 respectively); the spelling `null0` stands
/// for an absent dest field.
pub open spec fn dest_code(m: Seq<char>) -> Option<Seq<char>> {
    if m == "null0"@ {
        Some("000"@)
    } else if m == "M"@ {
        Some("001"@)
    } else if m == "D"@ {
        Some("010"@)
    } else if m == "MD"@ {
        Some("011"@)
    } else if m == "A"@ {
        Some("100"@)
    } else if m == "AM"@ {
        Some("101"@)
    } else if m == "AD"@ {
        Some("110"@)
    } else if m == "AMD"@ {
        Some("111"@)
    } else {
        None
    }
}

/// The inverse of the dest table, recovering the canonical mnemonic.
pub open spec fn dest_decode(c: Seq<char>) -> Option<Seq<char>> {
    if c == "000"@ {
        Some("null0"@)
    } else if c == "001"@ {
        Some("M"@)
    } else if c == "010"@ {
        Some("D"@)
    } else if c == "011"@ {
        Some("MD"@)
    } else if c == "100"@ {
        Some("A"@)
    } else if c == "101"@ {
        Some("AM"@)
    } else if c == "110"@ {
        Some("AD"@)
    } else if c == "111"@ {
        Some("AMD"@)
    } else {
        None
    }
}

/// The jump table, in its fixed enumeration order; the spelling `null`
/// stands for an absent jump field.
pub open spec fn jump_code(m: Seq<char>) -> Option<Seq<char>> {
    if m == "null"@ {
        Some("000"@)
    } else if m == "JGT"@ {
        Some("001"@)
    } else if m == "JEQ"@ {
        Some("010"@)
    } else if m == "JGE"@ {
        Some("011"@)
    } else if m == "JLT"@ {
        Some("100"@)
    } else if m == "JNE"@ {
        Some("101"@)
    } else if m == "JLE"@ {
        Some("110"@)
    } else if m == "JMP"@ {
        Some("111"@)
    } else {
        None
    }
}

/// The inverse of the jump table, recovering the canonical mnemonic.
pub open spec fn jump_decode(c: Seq<char>) -> Option<Seq<char>> {
    if c == "000"@ {
        Some("null"@)
    } else if c == "001"@ {
        Some("JGT"@)
    } else if c == "010"@ {
        Some("JEQ"@)
    } else if c == "011"@ {
        Some("JGE"@)
    } else if c == "100"@ {
        Some("JLT"@)
    } else if c == "101"@ {
        Some("JNE"@)
    } else if c == "110"@ {
        Some("JLE"@)
    } else if c == "111"@ {
        Some("JMP"@)
    } else {
        None
    }
}

/// The comp table over whitespace-free mnemonics. The leading bit of each
/// 7-bit code is `1` exactly when the mnemonic reads memory (`M`); the
/// commutative operators `+`, `&` and `|` accept both operand orders.
pub open spec fn comp_code(m: Seq<char>) -> Option<Seq<char>> {
    if m == "0"@ {
        Some("0101010"@)
    } else if m == "1"@ {
        Some("0111111"@)
    } else if m == "-1"@ {
        Some("0111010"@)
    } else if m == "D"@ {
        Some("0001100"@)
    } else if m == "A"@ {
        Some("0110000"@)
    } else if m == "!D"@ {
        Some("0001101"@)
    } else if m == "!A"@ {
        Some("0110001"@)
    } else if m == "-D"@ {
        Some("0001111"@)
    } else if m == "-A"@ {
        Some("0110011"@)
    } else if m == "D+1"@ || m == "1+D"@ {
        Some("0011111"@)
    } else if m == "A+1"@ || m == "1+A"@ {
        Some("0110111"@)
    } else if m == "D-1"@ {
        Some("0001110"@)
    } else if m == "A-1"@ {
        Some("0110010"@)
    } else if m == "D+A"@ || m == "A+D"@ {
        Some("0000010"@)
    } else if m == "D-A"@ {
        Some("0010011"@)
    } else if m == "A-D"@ {
        Some("0000111"@)
    } else if m == "D&A"@ || m == "A&D"@ {
        Some("0000000"@)
    } else if m == "D|A"@ || m == "A|D"@ {
        Some("0010101"@)
    } else if m == "M"@ {
        Some("1110000"@)
    } else if m == "!M"@ {
        Some("1110001"@)
    } else if m == "-M"@ {
        Some("1110011"@)
    } else if m == "M+1"@ || m == "1+M"@ {
        Some("1110111"@)
    } else if m == "M-1"@ {
        Some("1110010"@)
    } else if m == "D+M"@ || m == "M+D"@ {
        Some("1000010"@)
    } else if m == "D-M"@ {
        Some("1010011"@)
    } else if m == "M-D"@ {
        Some("1000111"@)
    } else if m == "D&M"@ || m == "M&D"@ {
        Some("1000000"@)
    } else if m == "D|M"@ || m == "M|D"@ {
        Some("1010101"@)
    } else {
        None
    }
}

/// The canonical spelling of each comp table entry: the first spelling
/// listed in its row (operands `D` before `A` or `M`).
pub open spec fn comp_canonical(m: Seq<char>) -> bool {
    m == "0"@ || m == "1"@ || m == "-1"@ || m == "D"@ || m == "A"@ || m == "!D"@ || m == "!A"@
        || m == "-D"@ || m == "-A"@ || m == "D+1"@ || m == "A+1"@ || m == "D-1"@ || m == "A-1"@
        || m == "D+A"@ || m == "D-A"@ || m == "A-D"@ || m == "D&A"@ || m == "D|A"@ || m == "M"@
        || m == "!M"@ || m == "-M"@ || m == "M+1"@ || m == "M-1"@ || m == "D+M"@ || m == "D-M"@
        || m == "M-D"@ || m == "D&M"@ || m == "D|M"@
}

/// The inverse of the comp table, recovering the canonical spelling.
pub open spec fn comp_decode(c: Seq<char>) -> Option<Seq<char>> {
    if c == "0101010"@ {
        Some("0"@)
    } else if c == "0111111"@ {
        Some("1"@)
    } else if c == "0111010"@ {
        Some("-1"@)
    } else if c == "0001100"@ {
        Some("D"@)
    } else if c == "0110000"@ {
        Some("A"@)
    } else if c == "0001101"@ {
        Some("!D"@)
    } else if c == "0110001"@ {
        Some("!A"@)
    } else if c == "0001111"@ {
        Some("-D"@)
    } else if c == "0110011"@ {
        Some("-A"@)
    } else if c == "0011111"@ {
        Some("D+1"@)
    } else if c == "0110111"@ {
        Some("A+1"@)
    } else if c == "0001110"@ {
        Some("D-1"@)
    } else if c == "0110010"@ {
        Some("A-1"@)
    } else if c == "0000010"@ {
        Some("D+A"@)
    } else if c == "0010011"@ {
        Some("D-A"@)
    } else if c == "0000111"@ {
        Some("A-D"@)
    } else if c == "0000000"@ {
        Some("D&A"@)
    } else if c == "0010101"@ {
        Some("D|A"@)
    } else if c == "1110000"@ {
        Some("M"@)
    } else if c == "1110001"@ {
        Some("!M"@)
    } else if c == "1110011"@ {
        Some("-M"@)
    } else if c == "1110111"@ {
        Some("M+1"@)
    } else if c == "1110010"@ {
        Some("M-1"@)
    } else if c == "1000010"@ {
        Some("D+M"@)
    } else if c == "1010011"@ {
        Some("D-M"@)
    } else if c == "1000111"@ {
        Some("M-D"@)
    } else if c == "1000000"@ {
        Some("D&M"@)
    } else if c == "1010101"@ {
        Some("D|M"@)
    } else {
        None
    }
}

/// The dest field of a raw mnemonic: trimmed, then looked up.
pub open spec fn spec_dest(m: Seq<char>) -> Option<Seq<char>> {
    dest_code(spec_trim(m))
}

/// The jump field of a raw mnemonic: trimmed, then looked up.
pub open spec fn spec_jump(m: Seq<char>) -> Option<Seq<char>> {
    jump_code(spec_trim(m))
}

/// The comp field of a raw mnemonic: all whitespace removed, then looked up.
pub open spec fn spec_comp(m: Seq<char>) -> Option<Seq<char>> {
    comp_code(remove_ws(m))
}

/// The instruction field encoder.
pub struct Code {}

impl Code {
    /// Encodes a dest mnemonic as its 3-bit pattern, or `None` when the
    /// trimmed text is outside the fixed table.
    pub fn dest(mnemonic: &str) -> (r: Option<&'static str>)
        ensures
            opt_str_view(r) == spec_dest(mnemonic@),
    {
        let t = trim(mnemonic);
        if str_eq(t, "null0") {
            Some("000")
        } else if str_eq(t, "M") {
            Some("001")
        } else if str_eq(t, "D") {
            Some("010")
        } else if str_eq(t, "MD") {
            Some("011")
        } else if str_eq(t, "A") {
            Some("100")
        } else if str_eq(t, "AM") {
            Some("101")
        } else if str_eq(t, "AD") {
            Some("110")
        } else if str_eq(t, "AMD") {
            Some("111")
        } else {
            None
        }
    }

    /// Encodes a jump mnemonic as its 3-bit pattern, or `None` when the
    /// trimmed text is outside the fixed table.
    pub fn jump(mnemonic: &str) -> (r: Option<&'static str>)
        ensures
            opt_str_view(r) == spec_jump(mnemonic@),
    {
        let t = trim(mnemonic);
        if str_eq(t, "null") {
            Some("000")
        } else if str_eq(t, "JGT") {
            Some("001")
        } else if str_eq(t, "JEQ") {
            Some("010")
        } else if str_eq(t, "JGE") {
            Some("011")
        } else if str_eq(t, "JLT") {
            Some("100")
        } else if str_eq(t, "JNE") {
            Some("101")
        } else if str_eq(t, "JLE") {
            Some("110")
        } else if str_eq(t, "JMP") {
            Some("111")
        } else {
            None
        }
    }

    /// Encodes a comp mnemonic as its 7-bit pattern, or `None` when the
    /// whitespace-free text is outside the fixed table.
    pub fn comp(mnemonic: &str) -> (r: Option<&'static str>)
        ensures
            opt_str_view(r) == spec_comp(mnemonic@),
    {
        let owned = remove_spaces(mnemonic);
        let t = owned.as_str();
        if str_eq(t, "0") {
            Some("0101010")
        } else if str_eq(t, "1") {
            Some("0111111")
        } else if str_eq(t, "-1") {
            Some("0111010")
        } else if str_eq(t, "D") {
            Some("0001100")
        } else if str_eq(t, "A") {
            Some("0110000")
        } else if str_eq(t, "!D") {
            Some("0001101")
        } else if str_eq(t, "!A") {
            Some("0110001")
        } else if str_eq(t, "-D") {
            Some("0001111")
        } else if str_eq(t, "-A") {
            Some("0110011")
        } else if str_eq(t, "D+1") || str_eq(t, "1+D") {
            Some("0011111")
        } else if str_eq(t, "A+1") || str_eq(t, "1+A") {
            Some("0110111")
        } else if str_eq(t, "D-1") {
            Some("0001110")
        } else if str_eq(t, "A-1") {
            Some("0110010")
        } else if str_eq(t, "D+A") || str_eq(t, "A+D") {
            Some("0000010")
        } else if str_eq(t, "D-A") {
            Some("0010011")
        } else if str_eq(t, "A-D") {
            Some("0000111")
        } else if str_eq(t, "D&A") || str_eq(t, "A&D") {
            Some("0000000")
        } else if str_eq(t, "D|A") || str_eq(t, "A|D") {
            Some("0010101")
        } else if str_eq(t, "M") {
            Some("1110000")
        } else if str_eq(t, "!M") {
            Some("1110001")
        } else if str_eq(t, "-M") {
            Some("1110011")
        } else if str_eq(t, "M+1") || str_eq(t, "1+M") {
            Some("1110111")
        } else if str_eq(t, "M-1") {
            Some("1110010")
        } else if str_eq(t, "D+M") || str_eq(t, "M+D") {
            Some("1000010")
        } else if str_eq(t, "D-M") {
            Some("1010011")
        } else if str_eq(t, "M-D") {
            Some("1000111")
        } else if str_eq(t, "D&M") || str_eq(t, "M&D") {
            Some("1000000")
        } else if str_eq(t, "D|M") || str_eq(t, "M|D") {
            Some("1010101")
        } else {
            None
        }
    }
}

/// The decimal digits.
pub open spec fn is_digit_char(c: char) -> bool {
    48 <= c as int && c as int <= 57
}

/// The value of one decimal digit.
pub open spec fn digit_val(c: char) -> int {
    c as int - 48
}

/// Nonempty text made of decimal digits only.
pub open spec fn is_numeric(s: Seq<char>) -> bool {
    s.len() > 0 && (forall|i: int| 0 <= i < s.len() ==> is_digit_char(#[trigger] s[i]))
}

/// The base-10 value of digit text.
pub open spec fn dec_val(s: Seq<char>) -> int
    decreases s.len(),
{
    if s.len() == 0 {
        0
    } else {
        dec_val(s.drop_last()) * 10 + digit_val(s.last())
    }
}

proof fn lemma_dec_val_nonneg(s: Seq<char>)
    requires
        forall|i: int| 0 <= i < s.len() ==> is_digit_char(#[trigger] s[i]),
    ensures
        dec_val(s) >= 0,
    decreases s.len(),
{
    if s.len() > 0 {
        lemma_dec_val_nonneg(s.drop_last());
    }
}

proof fn lemma_dec_val_prefix_le(s: Seq<char>, i: int)
    requires
        0 <= i <= s.len(),
        forall|k: int| 0 <= k < s.len() ==> is_digit_char(#[trigger] s[k]),
    ensures
        dec_val(s.subrange(0, i)) <= dec_val(s),
    decreases s.len() - i,
{
    if i == s.len() {
        assert(s.subrange(0, i) =~= s);
    } else {
        let shorter = s.subrange(0, i);
        let longer = s.subrange(0, i + 1);
        assert(longer.drop_last() =~= shorter);
        lemma_dec_val_nonneg(shorter);
        lemma_dec_val_prefix_le(s, i + 1);
    }
}

/// Whether `s` is a nonempty run of decimal digits.
pub fn is_numeric_text(s: &str) -> (r: bool)
    ensures
        r == is_numeric(s@),
{
    let len = s.unicode_len();
    if len == 0 {
        return false;
    }
    let mut i: usize = 0;
    while i < len
        invariant
            0 <= i <= len,
            len == s@.len(),
            forall|k: int| 0 <= k < i ==> is_digit_char(#[trigger] s@[k]),
        decreases len - i,
    {
        let c = s.get_char(i);
        let u = c as u32;
        if u < 48 || u > 57 {
            return false;
        }
        i = i + 1;
    }
    true
}

/// Parses digit text as a 15-bit address; `None` means the value exceeds
/// the addressable range.
pub fn parse_address(s: &str) -> (r: Option<usize>)
    requires
        is_numeric(s@),
    ensures
        match r {
            Some(v) => v == dec_val(s@) && v <= 32767,
            None => dec_val(s@) > 32767,
        },
{
    let len = s.unicode_len();
    let mut acc: usize = 0;
    let mut i: usize = 0;
    while i < len
        invariant
            0 <= i <= len,
            len == s@.len(),
            is_numeric(s@),
            acc == dec_val(s@.subrange(0, i as int)),
            acc <= 32767,
        decreases len - i,
    {
        let c = s.get_char(i);
        let d = (c as u32 - 48) as usize;
        let next = acc * 10 + d;
        proof {
            assert(is_digit_char(s@[i as int]));
            assert(s@.subrange(0, i + 1).drop_last() =~= s@.subrange(0, i as int));
            assert(dec_val(s@.subrange(0, i + 1)) == next);
        }
        if next > 32767 {
            proof {
                lemma_dec_val_prefix_le(s@, i + 1);
            }
            return None;
        }
        acc = next;
        i = i + 1;
    }
    proof {
        assert(s@.subrange(0, len as int) =~= s@);
    }
    Some(acc)
}

/// The big-endian binary rendering of `n` over `w` bit positions.
pub open spec fn bin_bits(n: int, w: nat) -> Seq<char>
    decreases w,
{
    if w == 0 {
        Seq::empty()
    } else {
        bin_bits(n / 2, (w - 1) as nat) + seq![if n % 2 == 1 { '1' } else { '0' }]
    }
}

/// A rendering over `w` positions has `w` characters.
pub proof fn lemma_bin_bits_len(n: int, w: nat)
    ensures
        bin_bits(n, w).len() == w,
    decreases w,
{
    if w > 0 {
        lemma_bin_bits_len(n / 2, (w - 1) as nat);
    }
}

/// A value below the top bit's weight renders with a leading `0`.
pub proof fn lemma_bin_bits_msb(n: int, w: nat)
    requires
        w >= 1,
        0 <= n < pow2((w - 1) as nat),
    ensures
        bin_bits(n, w)[0] == '0',
    decreases w,
{
    lemma_fundamental_div_mod(n, 2);
    if w == 1 {
        assert(pow2(0) == 1) by {
            vstd::arithmetic::power2::lemma2_to64();
        }
        assert(n == 0);
        assert(bin_bits(0, 0) =~= Seq::<char>::empty());
        assert(bin_bits(n, w) =~= seq!['0']);
    } else {
        assert(pow2((w - 1) as nat) == 2 * pow2((w - 2) as nat)) by {
            vstd::arithmetic::power2::lemma_pow2_unfold((w - 1) as nat);
        }
        lemma_bin_bits_msb(n / 2, (w - 1) as nat);
        lemma_bin_bits_len(n / 2, (w - 1) as nat);
        assert(bin_bits(n, w)[0] == bin_bits(n / 2, (w - 1) as nat)[0]);
    }
}

/// Renders the low `w` bits of `n`, most significant first.
fn encode_bits(n: usize, w: usize) -> (r: String)
    ensures
        r@ == bin_bits(n as int, w as nat),
    decreases w,
{
    if w == 0 {
        let r = String::new();
        proof {
            assert(r@ =~= bin_bits(n as int, 0));
        }
        r
    } else {
        let mut s = encode_bits(n / 2, w - 1);
        if n % 2 == 1 {
            s.append("1");
        } else {
            s.append("0");
        }
        proof {
            reveal_strlit("1");
            reveal_strlit("0");
            assert(s@ =~= bin_bits(n as int, w as nat));
        }
        s
    }
}

/// Renders a resolved address as a 16-character instruction: a leading `0`
/// and the 15-bit big-endian value.
pub fn encode_address(v: usize) -> (r: String)
    requires
        v <= 32767,
    ensures
        r@ == bin_bits(v as int, 16),
        r@.len() == 16,
        r@[0] == '0',
{
    let r = encode_bits(v, 16);
    proof {
        lemma_bin_bits_len(v as int, 16);
        assert(pow2(15) == 32768) by {
            vstd::arithmetic::power2::lemma2_to64();
        }
        lemma_bin_bits_msb(v as int, 16);
    }
    r
}

/// Every dest table entry decodes back to its canonical mnemonic.
pub proof fn lemma_dest_round_trip(m: Seq<char>)
    requires
        dest_code(m) is Some,
    ensures
        dest_decode(dest_code(m)->Some_0) == Some(m),
{
    reveal_strlit("000");
    assert("000"@ =~= seq!['0', '0', '0']);
    reveal_strlit("001");
    assert("001"@ =~= seq!['0', '0', '1']);
    reveal_strlit("010");
    assert("010"@ =~= seq!['0', '1', '0']);
    reveal_strlit("011");
    assert("011"@ =~= seq!['0', '1', '1']);
    reveal_strlit("100");
    assert("100"@ =~= seq!['1', '0', '0']);
    reveal_strlit("101");
    assert("101"@ =~= seq!['1', '0', '1']);
    reveal_strlit("110");
    assert("110"@ =~= seq!['1', '1', '0']);
    reveal_strlit("111");
    assert("111"@ =~= seq!['1', '1', '1']);
}

/// Every jump table entry decodes back to its canonical mnemonic.
pub proof fn lemma_jump_round_trip(m: Seq<char>)
    requires
        jump_code(m) is Some,
    ensures
        jump_decode(jump_code(m)->Some_0) == Some(m),
{
    reveal_strlit("000");
    assert("000"@ =~= seq!['0', '0', '0']);
    reveal_strlit("001");
    assert("001"@ =~= seq!['0', '0', '1']);
    reveal_strlit("010");
    assert("010"@ =~= seq!['0', '1', '0']);
    reveal_strlit("011");
    assert("011"@ =~= seq!['0', '1', '1']);
    reveal_strlit("100");
    assert("100"@ =~= seq!['1', '0', '0']);
    reveal_strlit("101");
    assert("101"@ =~= seq!['1', '0', '1']);
    reveal_strlit("110");
    assert("110"@ =~= seq!['1', '1', '0']);
    reveal_strlit("111");
    assert("111"@ =~= seq!['1', '1', '1']);
}

/// Every accepted comp spelling's code decodes to a canonical spelling
/// carrying the same code, and every canonical comp mnemonic decodes back
/// from its own code.
pub proof fn lemma_comp_round_trip(m: Seq<char>)
    requires
        comp_code(m) is Some,
    ensures
        comp_decode(comp_code(m)->Some_0) is Some,
        comp_canonical(comp_decode(comp_code(m)->Some_0)->Some_0),
        comp_code(comp_decode(comp_code(m)->Some_0)->Some_0) == comp_code(m),
        comp_canonical(m) ==> comp_decode(comp_code(m)->Some_0) == Some(m),
{
    reveal_strlit("0");
    assert("0"@ =~= seq!['0']);
    reveal_strlit("1");
    assert("1"@ =~= seq!['1']);
    reveal_strlit("-1");
    assert("-1"@ =~= seq!['-', '1']);
    reveal_strlit("D");
    assert("D"@ =~= seq!['D']);
    reveal_strlit("A");
    assert("A"@ =~= seq!['A']);
    reveal_strlit("!D");
    assert("!D"@ =~= seq!['!', 'D']);
    reveal_strlit("!A");
    assert("!A"@ =~= seq!['!', 'A']);
    reveal_strlit("-D");
    assert("-D"@ =~= seq!['-', 'D']);
    reveal_strlit("-A");
    assert("-A"@ =~= seq!['-', 'A']);
    reveal_strlit("D+1");
    assert("D+1"@ =~= seq!['D', '+', '1']);
    reveal_strlit("1+D");
    assert("1+D"@ =~= seq!['1', '+', 'D']);
    reveal_strlit("A+1");
    assert("A+1"@ =~= seq!['A', '+', '1']);
    reveal_strlit("1+A");
    assert("1+A"@ =~= seq!['1', '+', 'A']);
    reveal_strlit("D-1");
    assert("D-1"@ =~= seq!['D', '-', '1']);
    reveal_strlit("A-1");
    assert("A-1"@ =~= seq!['A', '-', '1']);
    reveal_strlit("D+A");
    assert("D+A"@ =~= seq!['D', '+', 'A']);
    reveal_strlit("A+D");
    assert("A+D"@ =~= seq!['A', '+', 'D']);
    reveal_strlit("D-A");
    assert("D-A"@ =~= seq!['D', '-', 'A']);
    reveal_strlit("A-D");
    assert("A-D"@ =~= seq!['A', '-', 'D']);
    reveal_strlit("D&A");
    assert("D&A"@ =~= seq!['D', '&', 'A']);
    reveal_strlit("A&D");
    assert("A&D"@ =~= seq!['A', '&', 'D']);
    reveal_strlit("D|A");
    assert("D|A"@ =~= seq!['D', '|', 'A']);
    reveal_strlit("A|D");
    assert("A|D"@ =~= seq!['A', '|', 'D']);
    reveal_strlit("M");
    assert("M"@ =~= seq!['M']);
    reveal_strlit("!M");
    assert("!M"@ =~= seq!['!', 'M']);
    reveal_strlit("-M");
    assert("-M"@ =~= seq!['-', 'M']);
    reveal_strlit("M+1");
    assert("M+1"@ =~= seq!['M', '+', '1']);
    reveal_strlit("1+M");
    assert("1+M"@ =~= seq!['1', '+', 'M']);
    reveal_strlit("M-1");
    assert("M-1"@ =~= seq!['M', '-', '1']);
    reveal_strlit("D+M");
    assert("D+M"@ =~= seq!['D', '+', 'M']);
    reveal_strlit("M+D");
    assert("M+D"@ =~= seq!['M', '+', 'D']);
    reveal_strlit("D-M");
    assert("D-M"@ =~= seq!['D', '-', 'M']);
    reveal_strlit("M-D");
    assert("M-D"@ =~= seq!['M', '-', 'D']);
    reveal_strlit("D&M");
    assert("D&M"@ =~= seq!['D', '&', 'M']);
    reveal_strlit("M&D");
    assert("M&D"@ =~= seq!['M', '&', 'D']);
    reveal_strlit("D|M");
    assert("D|M"@ =~= seq!['D', '|', 'M']);
    reveal_strlit("M|D");
    assert("M|D"@ =~= seq!['M', '|', 'D']);
    reveal_strlit("0101010");
    assert("0101010"@ =~= seq!['0', '1', '0', '1', '0', '1', '0']);
    reveal_strlit("0111111");
    assert("0111111"@ =~= seq!['0', '1', '1', '1', '1', '1', '1']);
    reveal_strlit("0111010");
    assert("0111010"@ =~= seq!['0', '1', '1', '1', '0', '1', '0']);
    reveal_strlit("0001100");
    assert("0001100"@ =~= seq!['0', '0', '0', '1', '1', '0', '0']);
    reveal_strlit("0110000");
    assert("0110000"@ =~= seq!['0', '1', '1', '0', '0', '0', '0']);
    reveal_strlit("0001101");
    assert("0001101"@ =~= seq!['0', '0', '0', '1', '1', '0', '1']);
    reveal_strlit("0110001");
    assert("0110001"@ =~= seq!['0', '1', '1', '0', '0', '0', '1']);
    reveal_strlit("0001111");
    assert("0001111"@ =~= seq!['0', '0', '0', '1', '1', '1', '1']);
    reveal_strlit("0110011");
    assert("0110011"@ =~= seq!['0', '1', '1', '0', '0', '1', '1']);
    reveal_strlit("0011111");
    assert("0011111"@ =~= seq!['0', '0', '1', '1', '1', '1', '1']);
    reveal_strlit("0110111");
    assert("0110111"@ =~= seq!['0', '1', '1', '0', '1', '1', '1']);
    reveal_strlit("0001110");
    assert("0001110"@ =~= seq!['0', '0', '0', '1', '1', '1', '0']);
    reveal_strlit("0110010");
    assert("0110010"@ =~= seq!['0', '1', '1', '0', '0', '1', '0']);
    reveal_strlit("0000010");
    assert("0000010"@ =~= seq!['0', '0', '0', '0', '0', '1', '0']);
    reveal_strlit("0010011");
    assert("0010011"@ =~= seq!['0', '0', '1', '0', '0', '1', '1']);
    reveal_strlit("0000111");
    assert("0000111"@ =~= seq!['0', '0', '0', '0', '1', '1', '1']);
    reveal_strlit("0000000");
    assert("0000000"@ =~= seq!['0', '0', '0', '0', '0', '0', '0']);
    reveal_strlit("0010101");
    assert("0010101"@ =~= seq!['0', '0', '1', '0', '1', '0', '1']);
    reveal_strlit("1110000");
    assert("1110000"@ =~= seq!['1', '1', '1', '0', '0', '0', '0']);
    reveal_strlit("1110001");
    assert("1110001"@ =~= seq!['1', '1', '1', '0', '0', '0', '1']);
    reveal_strlit("1110011");
    assert("1110011"@ =~= seq!['1', '1', '1', '0', '0', '1', '1']);
    reveal_strlit("1110111");
    assert("1110111"@ =~= seq!['1', '1', '1', '0', '1', '1', '1']);
    reveal_strlit("1110010");
    assert("1110010"@ =~= seq!['1', '1', '1', '0', '0', '1', '0']);
    reveal_strlit("1000010");
    assert("1000010"@ =~= seq!['1', '0', '0', '0', '0', '1', '0']);
    reveal_strlit("1010011");
    assert("1010011"@ =~= seq!['1', '0', '1', '0', '0', '1', '1']);
    reveal_strlit("1000111");
    assert("1000111"@ =~= seq!['1', '0', '0', '0', '1', '1', '1']);
    reveal_strlit("1000000");
    assert("1000000"@ =~= seq!['1', '0', '0', '0', '0', '0', '0']);
    reveal_strlit("1010101");
    assert("1010101"@ =~= seq!['1', '0', '1', '0', '1', '0', '1']);
}

/// Text made only of the characters `0` and `1`.
pub open spec fn is_bit_string(s: Seq<char>) -> bool {
    forall|k: int| 0 <= k < s.len() ==> (#[trigger] s[k]) == '0' || s[k] == '1'
}

/// Bit-character text stays bit-character text under concatenation.
pub proof fn lemma_bit_string_concat(a: Seq<char>, b: Seq<char>)
    requires
        is_bit_string(a),
        is_bit_string(b),
    ensures
        is_bit_string(a + b),
{
    assert forall|k: int| 0 <= k < (a + b).len() implies ((#[trigger] (a + b)[k]) == '0' || (a
        + b)[k] == '1') by {
        if k < a.len() {
            assert((a + b)[k] == a[k]);
        } else {
            assert((a + b)[k] == b[k - a.len()]);
        }
    }
}

/// A binary rendering holds only `0` and `1` characters.
pub proof fn lemma_bin_bits_shape(n: int, w: nat)
    ensures
        is_bit_string(bin_bits(n, w)),
    decreases w,
{
    if w > 0 {
        lemma_bin_bits_shape(n / 2, (w - 1) as nat);
        lemma_bit_string_concat(
            bin_bits(n / 2, (w - 1) as nat),
            seq![if n % 2 == 1 { '1' } else { '0' }],
        );
    }
}

/// Every dest or jump code is three bit characters; every comp code is
/// seven.
pub proof fn lemma_code_shapes(m: Seq<char>)
    ensures
        dest_code(m) matches Some(c) ==> c.len() == 3 && is_bit_string(c),
        jump_code(m) matches Some(c) ==> c.len() == 3 && is_bit_string(c),
        comp_code(m) matches Some(c) ==> c.len() == 7 && is_bit_string(c),
{
    reveal_strlit("000");
    assert("000"@ =~= seq!['0', '0', '0']);
    reveal_strlit("001");
    assert("001"@ =~= seq!['0', '0', '1']);
    reveal_strlit("010");
    assert("010"@ =~= seq!['0', '1', '0']);
    reveal_strlit("011");
    assert("011"@ =~= seq!['0', '1', '1']);
    reveal_strlit("100");
    assert("100"@ =~= seq!['1', '0', '0']);
    reveal_strlit("101");
    assert("101"@ =~= seq!['1', '0', '1']);
    reveal_strlit("110");
    assert("110"@ =~= seq!['1', '1', '0']);
    reveal_strlit("111");
    assert("111"@ =~= seq!['1', '1', '1']);
    reveal_strlit("0101010");
    assert("0101010"@ =~= seq!['0', '1', '0', '1', '0', '1', '0']);
    reveal_strlit("0111111");
    assert("0111111"@ =~= seq!['0', '1', '1', '1', '1', '1', '1']);
    reveal_strlit("0111010");
    assert("0111010"@ =~= seq!['0', '1', '1', '1', '0', '1', '0']);
    reveal_strlit("0001100");
    assert("0001100"@ =~= seq!['0', '0', '0', '1', '1', '0', '0']);
    reveal_strlit("0110000");
    assert("0110000"@ =~= seq!['0', '1', '1', '0', '0', '0', '0']);
    reveal_strlit("0001101");
    assert("0001101"@ =~= seq!['0', '0', '0', '1', '1', '0', '1']);
    reveal_strlit("0110001");
    assert("0110001"@ =~= seq!['0', '1', '1', '0', '0', '0', '1']);
    reveal_strlit("0001111");
    assert("0001111"@ =~= seq!['0', '0', '0', '1', '1', '1', '1']);
    reveal_strlit("0110011");
    assert("0110011"@ =~= seq!['0', '1', '1', '0', '0', '1', '1']);
    reveal_strlit("0011111");
    assert("0011111"@ =~= seq!['0', '0', '1', '1', '1', '1', '1']);
    reveal_strlit("0110111");
    assert("0110111"@ =~= seq!['0', '1', '1', '0', '1', '1', '1']);
    reveal_strlit("0001110");
    assert("0001110"@ =~= seq!['0', '0', '0', '1', '1', '1', '0']);
    reveal_strlit("0110010");
    assert("0110010"@ =~= seq!['0', '1', '1', '0', '0', '1', '0']);
    reveal_strlit("0000010");
    assert("0000010"@ =~= seq!['0', '0', '0', '0', '0', '1', '0']);
    reveal_strlit("0010011");
    assert("0010011"@ =~= seq!['0', '0', '1', '0', '0', '1', '1']);
    reveal_strlit("0000111");
    assert("0000111"@ =~= seq!['0', '0', '0', '0', '1', '1', '1']);
    reveal_strlit("0000000");
    assert("0000000"@ =~= seq!['0', '0', '0', '0', '0', '0', '0']);
    reveal_strlit("0010101");
    assert("0010101"@ =~= seq!['0', '0', '1', '0', '1', '0', '1']);
    reveal_strlit("1110000");
    assert("1110000"@ =~= seq!['1', '1', '1', '0', '0', '0', '0']);
    reveal_strlit("1110001");
    assert("1110001"@ =~= seq!['1', '1', '1', '0', '0', '0', '1']);
    reveal_strlit("1110011");
    assert("1110011"@ =~= seq!['1', '1', '1', '0', '0', '1', '1']);
    reveal_strlit("1110111");
    assert("1110111"@ =~= seq!['1', '1', '1', '0', '1', '1', '1']);
    reveal_strlit("1110010");
    assert("1110010"@ =~= seq!['1', '1', '1', '0', '0', '1', '0']);
    reveal_strlit("1000010");
    assert("1000010"@ =~= seq!['1', '0', '0', '0', '0', '1', '0']);
    reveal_strlit("1010011");
    assert("1010011"@ =~= seq!['1', '0', '1', '0', '0', '1', '1']);
    reveal_strlit("1000111");
    assert("1000111"@ =~= seq!['1', '0', '0', '0', '1', '1', '1']);
    reveal_strlit("1000000");
    assert("1000000"@ =~= seq!['1', '0', '0', '0', '0', '0', '0']);
    reveal_strlit("1010101");
    assert("1010101"@ =~= seq!['1', '0', '1', '0', '1', '0', '1']);
}

} // verus!
