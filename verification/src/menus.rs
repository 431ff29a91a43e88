//! The menus of the tutor: the choice of question format, the reading of a
//! typed choice as an `i8`, and the blank lines that clear the screen.

use vstd::prelude::*;
use crate::random::random_in;
use crate::answers::{trimmed, trim_text};

verus! {

// ---------------------------------------------------------------------------
// Reading an `i8`
// ---------------------------------------------------------------------------

/// The ASCII decimal digit `c` stands for, if any.
pub open spec fn decimal_digit(c: char) -> Option<nat> {
    if '0' <= c && c <= '9' {
        Some((c as u32 - '0' as u32) as nat)
    } else {
        None
    }
}

/// Every character of `s` is an ASCII decimal digit.
pub open spec fn all_decimal(s: Seq<char>) -> bool {
    forall|k: int| 0 <= k < s.len() ==> (#[trigger] decimal_digit(s[k])) is Some
}

/// The value of the decimal digits `s`.
pub open spec fn decimal_value(s: Seq<char>) -> nat
    decreases s.len(),
{
    if s.len() == 0 {
        0
    } else {
        decimal_value(s.drop_last()) * 10 + decimal_digit(s.last()).unwrap()
    }
}

/// `s` read as an `i8` the way `str::parse::<i8>` reads it: an optional `+` or
/// `-` followed by at least one decimal digit and nothing else, within -128 to
/// 127.
pub open spec fn parsed_i8(s: Seq<char>) -> Option<i8> {
    let neg = s.len() > 0 && s[0] == '-';
    let body = if s.len() > 0 && (s[0] == '-' || s[0] == '+') {
        s.drop_first()
    } else {
        s
    };
    if body.len() == 0 || !all_decimal(body) {
        None
    } else if neg {
        if decimal_value(body) <= 128 {
            Some((-(decimal_value(body) as int)) as i8)
        } else {
            None
        }
    } else {
        if decimal_value(body) <= 127 {
            Some(decimal_value(body) as i8)
        } else {
            None
        }
    }
}

/// Reads `s` as an `i8` (see [`parsed_i8`]); `None` when it is not one.
pub fn parse_i8(s: &str) -> (r: Option<i8>)
    ensures
        r == parsed_i8(s@),
{
    let n: usize = s.unicode_len();
    let mut start: usize = 0;
    let mut neg: bool = false;
    if n > 0 {
        let c0: char = s.get_char(0);
        if c0 == '-' {
            neg = true;
            start = 1;
        } else if c0 == '+' {
            start = 1;
        }
    }
    let ghost body = s@.subrange(start as int, n as int);
    assert(body =~= (if s@.len() > 0 && (s@[0] == '-' || s@[0] == '+') {
        s@.drop_first()
    } else {
        s@
    }));
    assert(neg == (s@.len() > 0 && s@[0] == '-'));
    if start == n {
        return None;
    }
    // The value read so far, held at 1000 once it is larger than any `i8`.
    let mut v: u32 = 0;
    let mut k: usize = start;
    while k < n
        invariant
            n == s@.len(),
            start <= k <= n,
            body == s@.subrange(start as int, n as int),
            body == (if s@.len() > 0 && (s@[0] == '-' || s@[0] == '+') {
                s@.drop_first()
            } else {
                s@
            }),
            neg == (s@.len() > 0 && s@[0] == '-'),
            body.len() > 0,
            all_decimal(body.take(k - start)),
            decimal_value(body.take(k - start)) < 1000 ==> v == decimal_value(body.take(k - start)),
            decimal_value(body.take(k - start)) >= 1000 ==> v == 1000,
        decreases n - k,
    {
        let c: char = s.get_char(k);
        let ghost t = body.take(k - start + 1);
        assert(t.drop_last() =~= body.take(k - start));
        assert(t.last() == c);
        if c < '0' || c > '9' {
            assert(body[k - start] == c);
            assert(decimal_digit(body[k - start]) is None);
            assert(!all_decimal(body));
            return None;
        }
        assert(all_decimal(t)) by {
            assert forall|q: int| 0 <= q < t.len() implies (#[trigger] decimal_digit(t[q])) is Some by {
                if q < k - start {
                    assert(t[q] == body.take(k - start)[q]);
                }
            }
        }
        let d: u32 = (c as u32) - 48;
        if v >= 1000 {
            v = 1000;
        } else {
            let next: u32 = v * 10 + d;
            v = if next >= 1000 {
                1000
            } else {
                next
            };
        }
        k = k + 1;
    }
    assert(body.take(n - start) =~= body);
    if neg {
        if v <= 128 {
            Some((0 - (v as i32)) as i8)
        } else {
            None
        }
    } else {
        if v <= 127 {
            Some(v as i8)
        } else {
            None
        }
    }
}

// ---------------------------------------------------------------------------
// The choice of question format
// ---------------------------------------------------------------------------

/// The menu of question formats: for a translation question (flag 0) the nine
/// combinations of question and answer base and a random option; for a stack
/// question (flag 1) the three answer bases and a random option.
pub open spec fn format_menu_text(question_flag: u8) -> Seq<char> {
    if question_flag == 0 {
        "\nChoose format of desired question\n\n"@ + "OPTION\t\tPROBLEM TYPE\n\n"@
            + "0)\t\t--va in hex to pa in hex\n"@ + "1)\t\t--va in hex to pa in binary\n"@
            + "2)\t\t--va in hex to pa in decimal\n"@ + "3)\t\t--va in binary to pa in hex\n"@
            + "4)\t\t--va in binary to pa in binary\n"@ + "5)\t\t--va in binary to pa in decimal\n"@
            + "6)\t\t--va in decimal to pa in hex\n"@ + "7)\t\t--va in decimal to pa in binary\n"@
            + "8)\t\t--va in decimal to pa in decimal\n"@ + "9)\t\tRandom option\n"@
    } else {
        "Choose format of desired question\n\n"@ + "OPTION\t\tPROBLEM TYPE\n"@
            + "0)\t\t--answer in hex\n"@ + "1)\t\t--answer in binary\n"@
            + "2)\t\t--answer in decimal\n"@ + "9)\t\t--random question\n"@
    }
}

/// The menu of question formats for a translation question (flag 0) or a
/// stack question (flag 1).
pub fn format_menu(question_flag: u8) -> (r: String)
    requires
        question_flag == 0 || question_flag == 1,
    ensures
        r@ == format_menu_text(question_flag),
{
    let mut s = String::new();
    if question_flag == 0 {
        s.append("\nChoose format of desired question\n\n");
        s.append("OPTION\t\tPROBLEM TYPE\n\n");
        s.append("0)\t\t--va in hex to pa in hex\n");
        s.append("1)\t\t--va in hex to pa in binary\n");
        s.append("2)\t\t--va in hex to pa in decimal\n");
        s.append("3)\t\t--va in binary to pa in hex\n");
        s.append("4)\t\t--va in binary to pa in binary\n");
        s.append("5)\t\t--va in binary to pa in decimal\n");
        s.append("6)\t\t--va in decimal to pa in hex\n");
        s.append("7)\t\t--va in decimal to pa in binary\n");
        s.append("8)\t\t--va in decimal to pa in decimal\n");
        s.append("9)\t\tRandom option\n");
    } else {
        s.append("Choose format of desired question\n\n");
        s.append("OPTION\t\tPROBLEM TYPE\n");
        s.append("0)\t\t--answer in hex\n");
        s.append("1)\t\t--answer in binary\n");
        s.append("2)\t\t--answer in decimal\n");
        s.append("9)\t\t--random question\n");
    }
    proof {
        assert(s@ =~= format_menu_text(question_flag));
    }
    s
}

/// The choice that a typed line makes, before a random option is drawn:
/// the number read from the trimmed line, or -1 when it is not an `i8`.
pub open spec fn typed_choice(line: Seq<char>) -> i8 {
    match parsed_i8(trimmed(line)) {
        Some(k) => k,
        None => -1i8,
    }
}

/// The messages printed after a typed choice: one when the line is not a
/// number, a blank line, and one when the number is not an option.
pub open spec fn choice_messages_text(line: Seq<char>) -> Seq<char> {
    let c = typed_choice(line);
    (if parsed_i8(trimmed(line)) is None {
        "Error. Invalid input --not an integer. Please try again.\n"@
    } else {
        Seq::empty()
    }) + "\n"@ + (if c != -1 && !(0 <= c <= 9) {
        "Please enter one of the digits corresponding to an option on screen\n"@
    } else {
        Seq::empty()
    })
}

/// Reads the line typed at the format menu. Returns the chosen format and the
/// messages to print: options 0 to 8 are taken as typed, 9 draws a format at
/// random (0 to 8 for a translation question, flag 0; 0 to 2 for a stack
/// question, flag 1); anything else gives no choice, so that the menu is shown
/// again.
pub fn choose_format_step(question_flag: u8, line: &str) -> (r: (Option<i8>, String))
    requires
        question_flag == 0 || question_flag == 1,
    ensures
        r.1@ == choice_messages_text(line@),
        0 <= typed_choice(line@) <= 8 ==> r.0 == Some(typed_choice(line@)),
        typed_choice(line@) == 9 && question_flag == 0 ==> (r.0 matches Some(c) && 0 <= c < 9),
        typed_choice(line@) == 9 && question_flag == 1 ==> (r.0 matches Some(c) && 0 <= c < 3),
        !(0 <= typed_choice(line@) <= 9) ==> r.0 is None,
{
    let mut s = String::new();
    let t = trim_text(line);
    let choice: i8 = match parse_i8(t.as_str()) {
        Some(k) => k,
        None => {
            s.append("Error. Invalid input --not an integer. Please try again.\n");
            -1
        },
    };
    s.append("\n");
    if choice == -1 {
        proof {
            assert(s@ =~= choice_messages_text(line@));
        }
        return (None, s);
    }
    if 0 <= choice && choice <= 8 {
        proof {
            assert(s@ =~= choice_messages_text(line@));
        }
        (Some(choice), s)
    } else if choice == 9 {
        let upper: u32 = if question_flag == 0 {
            9
        } else {
            3
        };
        let drawn: u32 = random_in(0, upper);
        proof {
            assert(s@ =~= choice_messages_text(line@));
        }
        (Some(drawn as i8), s)
    } else {
        s.append("Please enter one of the digits corresponding to an option on screen\n");
        proof {
            assert(s@ =~= choice_messages_text(line@));
        }
        (None, s)
    }
}

/// Fifty line breaks, to clear the screen.
pub fn _clear_screen() -> (r: String)
    ensures
        r@ == Seq::new(50, |_i: int| '\n'),
{
    let mut s = String::new();
    let mut i: u32 = 0;
    while i < 50
        invariant
            i <= 50,
            s@ == Seq::new(i as nat, |_j: int| '\n'),
        decreases 50 - i,
    {
        crate::digits::push_char(&mut s, '\n');
        i = i + 1;
        assert(s@ =~= Seq::new(i as nat, |_j: int| '\n'));
    }
    s
}

} // verus!
