//! A C statement that writes a constant byte string.
use vstd::prelude::*;
use crate::text::{decimal, indent, push_decimal, push_str, repeat, text};

verus! {

/// The octal escape of byte `c`: a backslash and three octal digits. With
/// exactly three digits no following byte can be read as part of it.
pub open spec fn octal_escape(c: u8) -> Seq<u8> {
    seq!['\\' as u8, (c as int / 64 + 48) as u8, (c as int / 8 % 8 + 48) as u8, (c as int % 8 + 48) as u8]
}

/// Does `data` hold a newline before its last byte?
pub open spec fn is_multiline(data: Seq<u8>) -> bool {
    exists|i: int| 0 <= i < data.len() - 1 && data[i] == '\n' as u8
}

/// How byte `c` is written inside a C string literal.
pub open spec fn c_escape(c: u8, multiline: bool, nesting: nat) -> Seq<u8> {
    if c == '\\' as u8 || c == '"' as u8 {
        seq!['\\' as u8, c]
    } else if c == '\n' as u8 {
        if multiline {
            text("\\n\"\n") + repeat(text("    "), nesting + 1) + text("\"")
        } else {
            text("\\n")
        }
    } else if c == '\r' as u8 {
        text("\\r")
    } else if c == '\t' as u8 {
        text("\\t")
    } else if c == 11 {
        text("\\v")
    } else if c == 8 {
        text("\\b")
    } else if 32 <= c <= 126 {
        seq![c]
    } else {
        octal_escape(c)
    }
}

/// The bytes of `data` written inside a C string literal.
pub open spec fn c_escaped(data: Seq<u8>, multiline: bool, nesting: nat) -> Seq<u8>
    decreases data.len(),
{
    if data.len() == 0 {
        Seq::empty()
    } else {
        c_escaped(data.drop_last(), multiline, nesting) + c_escape(data.last(), multiline, nesting)
    }
}

/// The statement `fwrite("...", n, 1, stdout);` for `data`, indented by
/// `nesting`; a string with an inner newline is split into one literal per
/// line. Nothing for empty `data`.
pub open spec fn c_write_str(data: Seq<u8>, nesting: nat) -> Seq<u8> {
    if data.len() == 0 {
        Seq::empty()
    } else {
        let ml = is_multiline(data);
        repeat(text("    "), nesting) + (if ml {
            text("fwrite(\n") + repeat(text("    "), nesting + 1) + text("\"")
        } else {
            text("fwrite(\"")
        }) + c_escaped(data, ml, nesting) + text("\", ") + decimal(data.len() as int) + text(
            ", 1, stdout);\n",
        )
    }
}

fn push_c_escape(out: &mut Vec<u8>, c: u8, multiline: bool, nesting: usize)
    requires
        nesting < usize::MAX,
    ensures
        final(out)@ == old(out)@ + c_escape(c, multiline, nesting as nat),
{
    if c == '\\' as u8 || c == '"' as u8 {
        out.push('\\' as u8);
        out.push(c);
        proof {
            assert(out@ =~= old(out)@ + seq!['\\' as u8, c]);
        }
    } else if c == '\n' as u8 {
        if multiline {
            push_str(out, "\\n\"\n");
            indent(out, nesting + 1);
            push_str(out, "\"");
            proof {
                assert(out@ =~= old(out)@ + c_escape(c, multiline, nesting as nat));
            }
        } else {
            push_str(out, "\\n");
        }
    } else if c == '\r' as u8 {
        push_str(out, "\\r");
    } else if c == '\t' as u8 {
        push_str(out, "\\t");
    } else if c == 11 {
        push_str(out, "\\v");
    } else if c == 8 {
        push_str(out, "\\b");
    } else if 32 <= c && c <= 126 {
        out.push(c);
        proof {
            assert(out@ =~= old(out)@ + seq![c]);
        }
    } else {
        out.push('\\' as u8);
        out.push(c / 64 + 48);
        out.push(c / 8 % 8 + 48);
        out.push(c % 8 + 48);
        proof {
            assert(out@ =~= old(out)@ + c_escape(c, multiline, nesting as nat));
        }
    }
}

/// Appends the C statement that writes `data` (see `c_write_str`).
pub fn generate_c_write_str(out: &mut Vec<u8>, data: &[u8], nesting: usize)
    requires
        nesting < usize::MAX - 1,
    ensures
        final(out)@ == old(out)@ + c_write_str(data@, nesting as nat),
{
    if data.len() > 0 {
        indent(out, nesting);
        let mut multiline = false;
        let mut i: usize = 0;
        while i < data.len()
            invariant
                i <= data@.len(),
                multiline <==> exists|k: int| 0 <= k < i && k < data@.len() - 1 && data@[k] == '\n' as u8,
            decreases data@.len() - i,
        {
            if data[i] == '\n' as u8 && i < data.len() - 1 {
                multiline = true;
            }
            i += 1;
        }
        if multiline {
            push_str(out, "fwrite(\n");
            indent(out, nesting + 1);
            push_str(out, "\"");
        } else {
            push_str(out, "fwrite(\"");
        }
        let ghost opening = out@;
        let mut j: usize = 0;
        while j < data.len()
            invariant
                j <= data@.len(),
                nesting < usize::MAX - 1,
                out@ == opening + c_escaped(data@.take(j as int), multiline, nesting as nat),
            decreases data@.len() - j,
        {
            push_c_escape(out, data[j], multiline, nesting);
            j += 1;
            proof {
                assert(data@.take(j as int).drop_last() =~= data@.take(j - 1));
                assert(out@ =~= opening + c_escaped(data@.take(j as int), multiline, nesting as nat));
            }
        }
        proof {
            assert(data@.take(j as int) =~= data@);
        }
        push_str(out, "\", ");
        push_decimal(out, data.len() as i128);
        push_str(out, ", 1, stdout);\n");
        proof {
            assert(out@ =~= old(out)@ + c_write_str(data@, nesting as nat));
        }
    }
}

} // verus!
