//! The text of a problem: the table of the memory layout and the question
//! asked in the chosen number formats.

use vstd::prelude::*;
use crate::digits::{dec_text, bin_text, hex_prefixed_text, push_dec, push_bin, push_hex_prefixed, push_char};
use crate::segments::{SegName, Segment};

verus! {

/// The question and answer formats (16, 2 or 10) of a format choice: 0 to 2
/// ask in hexadecimal, 3 to 5 in binary, 6 to 8 in decimal; the answer is asked
/// in hexadecimal, binary and decimal in turn. Other choices give -1.
pub open spec fn format_specifiers(format_choice: i8) -> (i8, i8) {
    let q: i8 = if 0 <= format_choice <= 2 {
        16
    } else if 3 <= format_choice <= 5 {
        2
    } else if 6 <= format_choice <= 8 {
        10
    } else {
        -1i8
    };
    let a: i8 = if format_choice == 0 || format_choice == 3 || format_choice == 6 {
        16
    } else if format_choice == 1 || format_choice == 4 || format_choice == 7 {
        2
    } else if format_choice == 2 || format_choice == 5 || format_choice == 8 {
        10
    } else {
        -1i8
    };
    (q, a)
}

/// The question and answer formats of a format choice (see [`format_specifiers`]).
pub fn fetch_format_specifiers(format_choice: i8) -> (r: (i8, i8))
    ensures
        r == format_specifiers(format_choice),
{
    let qformat: i8 = match format_choice {
        0 | 1 | 2 => 16,
        3 | 4 | 5 => 2,
        6 | 7 | 8 => 10,
        _ => -1,
    };
    let aformat: i8 = match format_choice {
        0 | 3 | 6 => 16,
        1 | 4 | 7 => 2,
        2 | 5 | 8 => 10,
        _ => -1,
    };
    (qformat, aformat)
}

/// The name of a segment as the layout table shows it.
pub open spec fn seg_name_view(name: SegName) -> Seq<char> {
    match name {
        SegName::Code => "Code"@,
        SegName::Heap => "Heap"@,
        SegName::Stack => "Stack"@,
    }
}

/// The name of a segment as the layout table shows it.
pub fn seg_name_text(name: SegName) -> (r: &'static str)
    ensures
        r@ == seg_name_view(name),
{
    match name {
        SegName::Code => "Code",
        SegName::Heap => "Heap",
        SegName::Stack => "Stack",
    }
}

/// A size in tenths of K written as a decimal number of K: `12.8`, and `12`
/// rather than `12.0` for a whole number.
pub open spec fn size_text(tenths: u32) -> Seq<char> {
    if tenths % 10 == 0 {
        dec_text((tenths / 10) as nat)
    } else {
        dec_text((tenths / 10) as nat) + seq!['.'] + dec_text((tenths % 10) as nat)
    }
}

/// Appends a size in tenths of K written as a decimal number of K.
pub fn push_size(s: &mut String, tenths: u32)
    ensures
        final(s)@ == old(s)@ + size_text(tenths),
{
    push_dec(s, tenths / 10);
    if tenths % 10 != 0 {
        push_char(s, '.');
        push_dec(s, tenths % 10);
    }
    proof {
        assert(s@ =~= old(s)@ + size_text(tenths));
    }
}

/// One row of the layout table: name, selector, base, size and direction.
pub open spec fn layout_row_text(selector: Seq<char>, seg: Segment) -> Seq<char> {
    "\t\t"@ + seg_name_view(seg.name) + "\t"@ + selector + "\t"@ + dec_text(seg.base as nat) + "K\t"@
        + size_text(seg.size_tenths) + "K\t"@ + dec_text(seg.grows_negative as nat) + "\n"@
}

fn push_layout_row(s: &mut String, selector: &str, seg: Segment)
    ensures
        final(s)@ == old(s)@ + layout_row_text(selector@, seg),
{
    s.append("\t\t");
    s.append(seg_name_text(seg.name));
    s.append("\t");
    s.append(selector);
    s.append("\t");
    push_dec(s, seg.base);
    s.append("K\t");
    push_size(s, seg.size_tenths);
    s.append("K\t");
    push_dec(s, seg.grows_negative);
    s.append("\n");
    proof {
        assert(s@ =~= old(s)@ + layout_row_text(selector@, seg));
    }
}

/// The description of the memory model that opens every problem: the sizes of
/// the virtual address space and the physical memory, the bits of a virtual
/// address, and a table of the code (00), heap (01) and stack (11) segments.
pub open spec fn layout_text(vas: u32, pm: u32, power_of2: u32, segments: Seq<Segment>) -> Seq<char> {
    "\n"@ + "Assume a "@ + dec_text(vas as nat) + "KB virtual address space and a "@ + dec_text(
        pm as nat,
    ) + "KB physical memory. Virtual addresses are "@ + dec_text(power_of2 as nat)
        + " bits and segmentation is being used.\n    The segment information is:"@ + "\n"@
        + "\t\tSegment Number\tBase\tSize\tGrowsNegative\n"@ + layout_row_text("00"@, segments[0])
        + layout_row_text("01"@, segments[1]) + layout_row_text("11"@, segments[2])
}

/// The description of the memory model: virtual address space `vas` K,
/// physical memory `pm` K, addresses of `power_of2` bits, and the first three
/// segments (code, heap, stack) in a table.
pub fn print_layout(vas: u32, pm: u32, power_of2: u32, segments: Vec<Segment>) -> (r: String)
    requires
        segments@.len() >= 3,
    ensures
        r@ == layout_text(vas, pm, power_of2, segments@),
{
    let mut to_print = String::new();
    to_print.append("\n");
    to_print.append("Assume a ");
    push_dec(&mut to_print, vas);
    to_print.append("KB virtual address space and a ");
    push_dec(&mut to_print, pm);
    to_print.append("KB physical memory. Virtual addresses are ");
    push_dec(&mut to_print, power_of2);
    to_print.append(" bits and segmentation is being used.\n    The segment information is:");
    to_print.append("\n");
    to_print.append("\t\tSegment Number\tBase\tSize\tGrowsNegative\n");
    push_layout_row(&mut to_print, "00", segments[0]);
    push_layout_row(&mut to_print, "01", segments[1]);
    push_layout_row(&mut to_print, "11", segments[2]);
    proof {
        assert(to_print@ =~= layout_text(vas, pm, power_of2, segments@));
    }
    to_print
}

/// A virtual address written in a question format: `{:#X}` for 16, `{:b}` for
/// 2, `{}` for 10.
pub open spec fn va_in_format(va: u32, format: i8) -> Seq<char> {
    if format == 16 {
        hex_prefixed_text(va as nat)
    } else if format == 2 {
        bin_text(va as nat)
    } else {
        dec_text(va as nat)
    }
}

fn push_in_format(s: &mut String, v: u32, format: i8)
    ensures
        final(s)@ == old(s)@ + va_in_format(v, format),
{
    if format == 16 {
        push_hex_prefixed(s, v);
    } else if format == 2 {
        push_bin(s, v);
    } else {
        push_dec(s, v);
    }
}

/// The question of a virtual-to-physical translation, with the address in the
/// question format and the base of the answer.
pub open spec fn question_va_text(va: u32, qformat: i8, aformat: i8, malloc: bool) -> Seq<char> {
    let tail = if qformat == 10 {
        " (base 10)"@
    } else {
        Seq::empty()
    };
    if !malloc {
        "Virtual Address "@ + va_in_format(va, qformat) + tail
            + " refers to what physical address (in base "@ + dec_text(aformat as nat) + ")?\n"@
    } else {
        "A call to malloc returns a virtual address of "@ + va_in_format(va, qformat) + tail
            + ". What is the physical address (in base "@ + dec_text(aformat as nat)
            + ") of this virtual address?\n"@
    }
}

/// Prints the question of a virtual-to-physical translation for a format
/// choice from 0 to 8 (see [`fetch_format_specifiers`]); a malloc question says
/// that the address came from a call to malloc. Returns the question and answer
/// formats and the text.
pub fn print_question_va_to_pa(va: u32, format_flag: i8, malloc: bool) -> (r: (i8, i8, String))
    requires
        0 <= format_flag <= 8,
    ensures
        (r.0, r.1) == format_specifiers(format_flag),
        r.2@ == question_va_text(va, r.0, r.1, malloc),
{
    let formats = fetch_format_specifiers(format_flag);
    let qformat: i8 = formats.0;
    let aformat: i8 = formats.1;
    let mut to_print = String::new();
    if !malloc {
        to_print.append("Virtual Address ");
    } else {
        to_print.append("A call to malloc returns a virtual address of ");
    }
    push_in_format(&mut to_print, va, qformat);
    if qformat == 10 {
        to_print.append(" (base 10)");
    }
    if !malloc {
        to_print.append(" refers to what physical address (in base ");
        push_dec(&mut to_print, aformat as u32);
        to_print.append(")?\n");
    } else {
        to_print.append(". What is the physical address (in base ");
        push_dec(&mut to_print, aformat as u32);
        to_print.append(") of this virtual address?\n");
    }
    proof {
        assert(to_print@ =~= question_va_text(va, qformat, aformat, malloc));
    }
    (qformat, aformat, to_print)
}

/// The answer format of a stack question format: 0 hexadecimal (16), 1 binary
/// (2), 2 decimal (10).
pub open spec fn stack_answer_format(question_format: i8) -> i8 {
    if question_format == 0 {
        16
    } else if question_format == 1 {
        2
    } else {
        10
    }
}

/// The question of the stack-percentage problem.
pub open spec fn question_stack_text(percent: u32, aformat: i8) -> Seq<char> {
    let base_name = if aformat == 16 {
        "hexadecimal"@
    } else if aformat == 2 {
        "binary"@
    } else {
        "decimal"@
    };
    "What virtual address, in "@ + base_name + ", is "@ + dec_text(percent as nat)
        + "% into the stack??\n"@
}

/// Prints the question "what virtual address is `percent`% into the stack" for
/// a question format from 0 to 2 (hexadecimal, binary, decimal answer). Returns
/// the answer format and the text.
pub fn print_question_stack_percentage(percent: u32, question_format: i8) -> (r: (i8, String))
    requires
        0 <= question_format <= 2,
    ensures
        r.0 == stack_answer_format(question_format),
        r.1@ == question_stack_text(percent, r.0),
{
    let aformat: i8 = match question_format {
        0 => 16,
        1 => 2,
        _ => 10,
    };
    let mut to_print = String::new();
    to_print.append("What virtual address, in ");
    if aformat == 16 {
        to_print.append("hexadecimal");
    } else if aformat == 2 {
        to_print.append("binary");
    } else {
        to_print.append("decimal");
    }
    to_print.append(", is ");
    push_dec(&mut to_print, percent);
    to_print.append("% into the stack??\n");
    proof {
        assert(to_print@ =~= question_stack_text(percent, aformat));
    }
    (aformat, to_print)
}

} // verus!
