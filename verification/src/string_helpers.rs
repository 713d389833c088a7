//! Helpers for combining and encoding attribute strings.
use vstd::prelude::*;

use crate::text::push_char;

verus! {

/// The combined form of two set-valued attribute strings: the second is
/// appended to the first behind a `", "` separator, unless the first already
/// ends in a separator character, and an empty side yields the other side.
pub open spec fn spec_combine_set_tokens(s1: Seq<char>, s2: Seq<char>) -> Seq<char> {
    if s1.len() == 0 {
        s2
    } else if s2.len() == 0 {
        s1
    } else if s1[s1.len() - 1] == ',' {
        s1 + s2
    } else {
        s1 + seq![',', ' '] + s2
    }
}

/// The combining laws: an empty side yields the other side unchanged, and
/// two non-empty sides end up with exactly one separator between them.
pub proof fn lemma_combine_set_tokens_laws(a: Seq<char>, b: Seq<char>)
    ensures
        spec_combine_set_tokens(a, Seq::<char>::empty()) == a,
        spec_combine_set_tokens(Seq::<char>::empty(), b) == b,
        a.len() > 0 && b.len() > 0 && a[a.len() - 1] != ',' ==> spec_combine_set_tokens(a, b) == a
            + seq![',', ' '] + b,
        a.len() > 0 && b.len() > 0 && a[a.len() - 1] == ',' ==> spec_combine_set_tokens(a, b) == a
            + b,
{
    if a.len() == 0 {
        assert(spec_combine_set_tokens(a, Seq::<char>::empty()) =~= a);
    }
}

/// Combine two set-valued attribute strings with a single separator between them.
pub fn combine_set_tokens(str1: &str, str2: &str) -> (r: String)
    ensures
        r@ == spec_combine_set_tokens(str1@, str2@),
{
    let n1 = str1.unicode_len();
    if n1 == 0 {
        return str2.to_owned();
    }
    if str2.unicode_len() == 0 {
        return str1.to_owned();
    }
    let mut combined = str1.to_owned();
    if str1.get_char(n1 - 1) != ',' {
        proof {
            reveal_strlit(", ");
        }
        assert(", "@ =~= seq![',', ' ']);
        combined.append(", ");
    }
    combined.append(str2);
    proof {
        assert(combined@ =~= spec_combine_set_tokens(str1@, str2@));
    }
    combined
}

/// The encoded form of a single character: a space becomes `+`, a slash
/// becomes `%2F`, anything else stands for itself.
pub open spec fn spec_encode_char(c: char) -> Seq<char> {
    if c == ' ' {
        seq!['+']
    } else if c == '/' {
        seq!['%', '2', 'F']
    } else {
        seq![c]
    }
}

pub open spec fn spec_simple_encode(s: Seq<char>) -> Seq<char>
    decreases s.len(),
{
    if s.len() == 0 {
        Seq::<char>::empty()
    } else {
        spec_simple_encode(s.drop_last()) + spec_encode_char(s.last())
    }
}

/// Encode a string for use inside a URI query value.
pub fn simple_encode_string(input: &str) -> (r: String)
    ensures
        r@ == spec_simple_encode(input@),
{
    let n = input.unicode_len();
    let mut out = String::new();
    let mut i: usize = 0;
    proof {
        assert(input@.take(0) =~= Seq::<char>::empty());
    }
    while i < n
        invariant
            0 <= i <= n,
            n == input@.len(),
            out@ == spec_simple_encode(input@.take(i as int)),
        decreases n - i,
    {
        let c = input.get_char(i);
        if c == ' ' {
            push_char(&mut out, '+');
        } else if c == '/' {
            proof {
                reveal_strlit("%2F");
            }
            assert("%2F"@ =~= seq!['%', '2', 'F']);
            out.append("%2F");
        } else {
            push_char(&mut out, c);
        }
        proof {
            assert(input@.take(i + 1).drop_last() =~= input@.take(i as int));
            assert(input@.take(i + 1).last() == input@[i as int]);
            assert(out@ =~= spec_simple_encode(input@.take(i + 1)));
        }
        i = i + 1;
    }
    proof {
        assert(input@.take(n as int) =~= input@);
    }
    out
}

pub open spec fn is_hex_digit(c: char) -> bool {
    (48 <= c as u32 && c as u32 <= 57) || (65 <= c as u32 && c as u32 <= 70) || (97 <= c as u32
        && c as u32 <= 102)
}

pub open spec fn hex_digit_val(c: char) -> int {
    if 48 <= c as u32 && c as u32 <= 57 {
        c as u32 - 48
    } else if 65 <= c as u32 && c as u32 <= 70 {
        c as u32 - 55
    } else {
        c as u32 - 87
    }
}

/// The character with code `16 * hex_digit_val(h1) + hex_digit_val(h2)`.
pub open spec fn hex_pair_char(h1: char, h2: char) -> char {
    ((hex_digit_val(h1) * 16 + hex_digit_val(h2)) as u8) as char
}

/// A decoded character that came out as `+` stands for a space.
pub open spec fn plus_to_space(c: char) -> char {
    if c == '+' {
        ' '
    } else {
        c
    }
}

/// The decoded form of a query string: every `%XX` hex escape is decoded
/// first, a `%` not followed by two hex digits stands for itself, and any
/// `+` in the decoded stream becomes a space.
pub open spec fn spec_simple_decode(s: Seq<char>) -> Seq<char>
    decreases s.len(),
{
    if s.len() == 0 {
        Seq::<char>::empty()
    } else if s[0] == '%' && s.len() >= 3 && is_hex_digit(s[1]) && is_hex_digit(s[2]) {
        seq![plus_to_space(hex_pair_char(s[1], s[2]))] + spec_simple_decode(s.skip(3))
    } else {
        seq![plus_to_space(s[0])] + spec_simple_decode(s.skip(1))
    }
}

fn is_hex_digit_char(c: char) -> (r: bool)
    ensures
        r == is_hex_digit(c),
{
    let u = c as u32;
    (48 <= u && u <= 57) || (65 <= u && u <= 70) || (97 <= u && u <= 102)
}

fn hex_digit_val_char(c: char) -> (v: u32)
    requires
        is_hex_digit(c),
    ensures
        v as int == hex_digit_val(c),
        v < 16,
{
    let u = c as u32;
    if 48 <= u && u <= 57 {
        u - 48
    } else if 65 <= u && u <= 70 {
        u - 55
    } else {
        u - 87
    }
}

/// Decode a URI query value: `%XX` escapes, then `+` as space.
pub fn simple_decode_string(input: &str) -> (r: String)
    ensures
        r@ == spec_simple_decode(input@),
{
    let n = input.unicode_len();
    let mut out = String::new();
    let mut i: usize = 0;
    proof {
        assert(input@.skip(0) =~= input@);
    }
    while i < n
        invariant
            0 <= i <= n,
            n == input@.len(),
            spec_simple_decode(input@) == out@ + spec_simple_decode(input@.skip(i as int)),
        decreases n - i,
    {
        let ghost sub = input@.skip(i as int);
        proof {
            assert(sub[0] == input@[i as int]);
            if n - i > 2 {
                assert(sub[1] == input@[i + 1]);
                assert(sub[2] == input@[i + 2]);
            }
        }
        let c = input.get_char(i);
        let mut decoded = c;
        let mut width: usize = 1;
        if c == '%' && n - i > 2 {
            let h1 = input.get_char(i + 1);
            let h2 = input.get_char(i + 2);
            if is_hex_digit_char(h1) && is_hex_digit_char(h2) {
                let v = hex_digit_val_char(h1) * 16 + hex_digit_val_char(h2);
                decoded = (v as u8) as char;
                width = 3;
            }
        }
        if decoded == '+' {
            push_char(&mut out, ' ');
        } else {
            push_char(&mut out, decoded);
        }
        proof {
            if width == 3 {
                assert(spec_simple_decode(sub) == seq![plus_to_space(hex_pair_char(sub[1], sub[2]))]
                    + spec_simple_decode(sub.skip(3)));
                assert(sub.skip(3) =~= input@.skip(i + 3));
            } else {
                assert(spec_simple_decode(sub) == seq![plus_to_space(sub[0])] + spec_simple_decode(
                    sub.skip(1),
                ));
                assert(sub.skip(1) =~= input@.skip(i + 1));
            }
            assert(out@ + spec_simple_decode(input@.skip(i + width)) =~= spec_simple_decode(
                input@,
            ));
        }
        i = i + width;
    }
    proof {
        assert(spec_simple_decode(input@.skip(n as int)) =~= Seq::<char>::empty());
        assert(out@ =~= spec_simple_decode(input@));
    }
    out
}

} // verus!
