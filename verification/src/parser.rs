//! The line classifier and the compute-command field splitter: a raw
//! source line becomes an address, compute, label or ignorable command,
//! and a compute command's text splits into dest, comp and jump fields.

use vstd::prelude::*;
use vstd::string::*;

use crate::code::{
    is_bit_string, lemma_bit_string_concat, lemma_code_shapes, spec_comp, spec_dest, spec_jump,
    Code,
};
use crate::errors::AsmErrorKind;
use crate::text::{
    find_char, lemma_spec_find, remove_spaces, remove_ws, spec_find, spec_strip_comment,
    spec_trim, strip_comment, trim,
};

verus! {

/// One classified source line.
pub enum Command {
    /// `@text`: a symbol or a decimal literal to load.
    Address(String),
    /// A `dest=comp;jump` computation.
    Compute(String),
    /// `(name)`: a label declaration.
    Label(String),
    /// A blank or comment-only line.
    Ignore,
}

/// The view of a classified line.
pub enum CmdView {
    Address(Seq<char>),
    Compute(Seq<char>),
    Label(Seq<char>),
    Ignore,
}

impl View for Command {
    type V = CmdView;

    open spec fn view(&self) -> CmdView {
        match self {
            Command::Address(s) => CmdView::Address(s@),
            Command::Compute(s) => CmdView::Compute(s@),
            Command::Label(s) => CmdView::Label(s@),
            Command::Ignore => CmdView::Ignore,
        }
    }
}

/// The view of a classification result.
pub open spec fn cmd_res_view(r: Result<Command, AsmErrorKind>) -> Result<
    CmdView,
    AsmErrorKind,
> {
    match r {
        Ok(c) => Ok(c@),
        Err(k) => Err(k),
    }
}

/// How a raw line classifies: comments and surrounding whitespace are
/// discarded, then the first significant character decides the command.
pub open spec fn spec_classify(raw: Seq<char>) -> Result<CmdView, AsmErrorKind> {
    let t = spec_trim(spec_strip_comment(raw));
    if t.len() == 0 {
        Ok(CmdView::Ignore)
    } else if t[0] == '@' {
        if t.len() == 1 {
            Err(AsmErrorKind::Classification)
        } else {
            Ok(CmdView::Address(t.subrange(1, t.len() as int)))
        }
    } else if t[0] == '(' {
        if t.len() >= 3 && t[t.len() - 1] == ')' {
            Ok(CmdView::Label(t.subrange(1, t.len() - 1)))
        } else {
            Err(AsmErrorKind::Classification)
        }
    } else {
        Ok(CmdView::Compute(t))
    }
}

/// Classifies one raw source line.
pub fn classify(raw: &str) -> (r: Result<Command, AsmErrorKind>)
    ensures
        cmd_res_view(r) == spec_classify(raw@),
{
    let stripped = strip_comment(raw);
    let t = trim(stripped);
    let len = t.unicode_len();
    if len == 0 {
        return Ok(Command::Ignore);
    }
    let c0 = t.get_char(0);
    if c0 == '@' {
        if len == 1 {
            Err(AsmErrorKind::Classification)
        } else {
            let payload = t.substring_char(1, len);
            Ok(Command::Address(String::from_str(payload)))
        }
    } else if c0 == '(' {
        if len >= 3 && t.get_char(len - 1) == ')' {
            let payload = t.substring_char(1, len - 1);
            Ok(Command::Label(String::from_str(payload)))
        } else {
            Err(AsmErrorKind::Classification)
        }
    } else {
        Ok(Command::Compute(String::from_str(t)))
    }
}

/// The comp field with its whitespace removed, guarded against emptiness.
pub open spec fn spec_fields_comp(d: Seq<char>, c_raw: Seq<char>, j: Seq<char>) -> Result<
    (Seq<char>, Seq<char>, Seq<char>),
    AsmErrorKind,
> {
    let c = remove_ws(c_raw);
    if c.len() == 0 {
        Err(AsmErrorKind::FieldSyntax)
    } else {
        Ok((d, c, j))
    }
}

/// The comp/jump split of everything after the dest field: text after the
/// first `;` is the jump field (trimmed), absent jump reads as `null`.
pub open spec fn spec_fields_rest(d: Seq<char>, rest: Seq<char>) -> Result<
    (Seq<char>, Seq<char>, Seq<char>),
    AsmErrorKind,
> {
    match spec_find(rest, ';') {
        Some(k) => {
            let j = spec_trim(rest.subrange(k + 1, rest.len() as int));
            if j.len() == 0 {
                Err(AsmErrorKind::FieldSyntax)
            } else {
                spec_fields_comp(d, rest.subrange(0, k), j)
            }
        },
        None => spec_fields_comp(d, rest, "null"@),
    }
}

/// The dest/comp/jump split of a compute command's text: text before the
/// first `=` is the dest field (trimmed), absent dest reads as `null0`;
/// a present but empty field is a syntax fault.
pub open spec fn spec_fields(t: Seq<char>) -> Result<
    (Seq<char>, Seq<char>, Seq<char>),
    AsmErrorKind,
> {
    match spec_find(t, '=') {
        Some(i) => {
            let d = spec_trim(t.subrange(0, i));
            if d.len() == 0 {
                Err(AsmErrorKind::FieldSyntax)
            } else {
                spec_fields_rest(d, t.subrange(i + 1, t.len() as int))
            }
        },
        None => spec_fields_rest("null0"@, t),
    }
}

/// Splits a compute command's text into its dest, comp and jump fields.
pub fn split_fields(t: &str) -> (r: Result<(String, String, String), AsmErrorKind>)
    ensures
        match r {
            Ok(f) => spec_fields(t@) == Ok::<_, AsmErrorKind>((f.0@, f.1@, f.2@)),
            Err(k) => spec_fields(t@) == Err::<(Seq<char>, Seq<char>, Seq<char>), _>(k),
        },
{
    let len = t.unicode_len();
    let eq_pos = find_char(t, '=');
    proof {
        lemma_spec_find(t@, '=');
    }
    let (d, rest): (String, &str) = match eq_pos {
        Some(i) => {
            let d = trim(t.substring_char(0, i));
            if d.unicode_len() == 0 {
                return Err(AsmErrorKind::FieldSyntax);
            }
            (String::from_str(d), t.substring_char(i + 1, len))
        },
        None => (String::from_str("null0"), t),
    };
    let semi_pos = find_char(rest, ';');
    proof {
        lemma_spec_find(rest@, ';');
    }
    let rest_len = rest.unicode_len();
    let (c_raw, j): (&str, String) = match semi_pos {
        Some(k) => {
            let j = trim(rest.substring_char(k + 1, rest_len));
            if j.unicode_len() == 0 {
                return Err(AsmErrorKind::FieldSyntax);
            }
            (rest.substring_char(0, k), String::from_str(j))
        },
        None => (rest, String::from_str("null")),
    };
    let c = remove_spaces(c_raw);
    if c.unicode_len() == 0 {
        return Err(AsmErrorKind::FieldSyntax);
    }
    Ok((d, c, j))
}

/// How a compute command's text encodes: each field looked up in its
/// table, assembled as `111` + comp + dest + jump.
pub open spec fn spec_encode_compute(t: Seq<char>) -> Result<Seq<char>, AsmErrorKind> {
    match spec_fields(t) {
        Err(k) => Err(k),
        Ok(f) => match (spec_dest(f.0), spec_comp(f.1), spec_jump(f.2)) {
            (Some(db), Some(cb), Some(jb)) => Ok("111"@ + cb + db + jb),
            _ => Err(AsmErrorKind::UnknownMnemonic),
        },
    }
}

/// Encodes a compute command's text as its 16-character instruction.
pub fn encode_compute(text: &str) -> (r: Result<String, AsmErrorKind>)
    ensures
        match r {
            Ok(s) => spec_encode_compute(text@) == Ok::<_, AsmErrorKind>(s@),
            Err(k) => spec_encode_compute(text@) == Err::<Seq<char>, _>(k),
        },
{
    let fields = match split_fields(text) {
        Ok(f) => f,
        Err(k) => {
            return Err(k);
        },
    };
    let db = match Code::dest(fields.0.as_str()) {
        Some(x) => x,
        None => {
            return Err(AsmErrorKind::UnknownMnemonic);
        },
    };
    let cb = match Code::comp(fields.1.as_str()) {
        Some(x) => x,
        None => {
            return Err(AsmErrorKind::UnknownMnemonic);
        },
    };
    let jb = match Code::jump(fields.2.as_str()) {
        Some(x) => x,
        None => {
            return Err(AsmErrorKind::UnknownMnemonic);
        },
    };
    let mut out = String::from_str("111");
    out.append(cb);
    out.append(db);
    out.append(jb);
    Ok(out)
}

/// Every encoded compute instruction is a 16-character string of bit
/// characters: `111`, then seven comp bits, three dest bits and three
/// jump bits.
pub proof fn lemma_compute_instruction_shape(t: Seq<char>)
    requires
        spec_encode_compute(t) is Ok,
    ensures
        (spec_encode_compute(t)->Ok_0).len() == 16,
        is_bit_string(spec_encode_compute(t)->Ok_0),
{
    reveal_strlit("111");
    assert("111"@ =~= seq!['1', '1', '1']);
    let f = spec_fields(t)->Ok_0;
    lemma_code_shapes(spec_trim(f.0));
    lemma_code_shapes(remove_ws(f.1));
    lemma_code_shapes(spec_trim(f.2));
    let cb = spec_comp(f.1)->Some_0;
    let db = spec_dest(f.0)->Some_0;
    let jb = spec_jump(f.2)->Some_0;
    lemma_bit_string_concat("111"@, cb);
    lemma_bit_string_concat("111"@ + cb, db);
    lemma_bit_string_concat("111"@ + cb + db, jb);
}

} // verus!
