//! A NASM `db` line that defines a byte string.
use vstd::prelude::*;
use crate::text::{decimal, push_decimal, push_str, push_bytes, repeat, text};

verus! {

/// Bytes that go inside a double-quoted NASM string: printable ASCII except
/// `"`, `'` and `\`.
pub open spec fn quotable(c: u8) -> bool {
    (' ' as u8 <= c <= '!' as u8) || ('#' as u8 <= c <= '&' as u8) || ('(' as u8 <= c <= '[' as u8) || (
    ']' as u8 <= c <= '~' as u8)
}

/// The operands of `db` for `data`, with the continuation indent `ind`,
/// and whether the text ends inside a quote and right after a newline.
pub open spec fn asm_operands(data: Seq<u8>, ind: Seq<u8>) -> (Seq<u8>, bool, bool)
    decreases data.len(),
{
    if data.len() == 0 {
        (Seq::empty(), false, false)
    } else {
        let (o, quote, endline) = asm_operands(data.drop_last(), ind);
        let first = data.len() == 1;
        let c = data.last();
        let sep = if endline {
            text(", \\\n") + ind
        } else if quote {
            text("\",")
        } else if !first {
            text(",")
        } else {
            Seq::empty()
        };
        if c == '\n' as u8 {
            (o + sep + text("10"), false, true)
        } else if quotable(c) {
            let open = if endline {
                text(", \\\n") + ind + text("\"")
            } else if quote {
                Seq::empty()
            } else if first {
                text("\"")
            } else {
                text(",\"")
            };
            (o + open + seq![c], true, false)
        } else {
            (o + sep + decimal(c as int), false, false)
        }
    }
}

/// The label `name:` padded to eight columns, then `db` and the operands.
pub open spec fn asm_str(name: Seq<u8>, data: Seq<u8>) -> Seq<u8> {
    let label = name.push(':' as u8);
    let pad = if label.len() < 8 {
        repeat(seq![' ' as u8], (8 - label.len()) as nat)
    } else {
        Seq::empty()
    };
    let width = if name.len() + 1 > 8 {
        name.len() + 1
    } else {
        8
    };
    let ind = repeat(seq![' ' as u8], (width + 3) as nat);
    let head = label + pad + text("db ");
    if data.len() == 0 {
        head + text("\"\"\n")
    } else {
        let (o, quote, _e) = asm_operands(data, ind);
        head + o + (if quote {
            text("\"\n")
        } else {
            text("\n")
        })
    }
}

#[verifier::rlimit(40)]
/// Appends the definition of the byte string `data` under the label `name`.
pub fn generate_asm_str(out: &mut Vec<u8>, name: &[u8], data: &[u8])
    requires
        name@.len() + 12 < usize::MAX,
    ensures
        final(out)@ == old(out)@ + asm_str(name@, data@),
{
    let nb = name;
    let ghost start = out@;
    push_bytes(out, nb);
    out.push(':' as u8);
    let label_len = nb.len() + 1;
    let mut pad: Vec<u8> = Vec::new();
    if label_len < 8 {
        crate::text::push_spaces(&mut pad, 8 - label_len);
    }
    push_bytes(out, pad.as_slice());
    push_str(out, "db ");
    let ghost head = out@;
    proof {
        assert(head =~= start + name@.push(':' as u8) + pad@ + text("db "));
    }
    if data.len() > 0 {
        let width = if label_len > 8 {
            label_len
        } else {
            8
        };
        let mut ind: Vec<u8> = Vec::new();
        crate::text::push_spaces(&mut ind, width + 3);
        let mut quote = false;
        let mut endline = false;
        let mut i: usize = 0;
        while i < data.len()
            invariant
                i <= data@.len(),
                asm_operands(data@.take(i as int), ind@) == (out@.subrange(head.len() as int, out@.len() as int), quote, endline),
                out@.len() >= head.len(),
                out@.subrange(0, head.len() as int) == head,
            decreases data@.len() - i,
        {
            let ghost before = out@;
            let c = data[i];
            let first = i == 0;
            if c == '\n' as u8 {
                if endline {
                    push_str(out, ", \\\n");
                    push_bytes(out, ind.as_slice());
                } else if quote {
                    push_str(out, "\",");
                } else if !first {
                    push_str(out, ",");
                }
                push_str(out, "10");
                endline = true;
                quote = false;
            } else if (c >= ' ' as u8 && c <= '!' as u8) || (c >= '#' as u8 && c <= '&' as u8) || (c >= '(' as u8 && c <= '[' as u8) || (c
                >= ']' as u8 && c <= '~' as u8) {
                if endline {
                    push_str(out, ", \\\n");
                    push_bytes(out, ind.as_slice());
                    push_str(out, "\"");
                } else if quote {
                } else if first {
                    push_str(out, "\"");
                } else {
                    push_str(out, ",\"");
                }
                out.push(c);
                endline = false;
                quote = true;
            } else {
                if endline {
                    push_str(out, ", \\\n");
                    push_bytes(out, ind.as_slice());
                } else if quote {
                    push_str(out, "\",");
                } else if !first {
                    push_str(out, ",");
                }
                push_decimal(out, c as i128);
                endline = false;
                quote = false;
            }
            i += 1;
            proof {
                assert(data@.take(i as int).drop_last() =~= data@.take(i - 1));
                assert(before.subrange(0, head.len() as int) == head);
                assert(out@.subrange(0, head.len() as int) =~= head);
                assert(out@.subrange(head.len() as int, out@.len() as int) =~= before.subrange(
                    head.len() as int,
                    before.len() as int,
                ) + out@.subrange(before.len() as int, out@.len() as int));
            }
        }
        proof {
            assert(data@.take(i as int) =~= data@);
            assert(out@ =~= head + out@.subrange(head.len() as int, out@.len() as int));
        }
        if quote {
            push_str(out, "\"\n");
        } else {
            push_str(out, "\n");
        }
        proof {
            assert(out@ =~= old(out)@ + asm_str(name@, data@));
        }
    } else {
        push_str(out, "\"\"\n");
        proof {
            assert(out@ =~= old(out)@ + asm_str(name@, data@));
        }
    }
}

} // verus!
