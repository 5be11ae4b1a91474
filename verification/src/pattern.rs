//! Character classes and the runs of characters they make, as the address
//! patterns of the problem pages use them.

use vstd::prelude::*;

verus! {

/// The `\w` class of the `regex` crate (Unicode word characters).
pub uninterp spec fn regex_word_char(c: char) -> bool;

/// The `\d` class of the `regex` crate (Unicode decimal digits, `Nd`).
pub uninterp spec fn regex_decimal_digit(c: char) -> bool;

/// `regex_syntax::is_word_character`, the test behind the `\w` class. Its
/// source checks ASCII characters against `[_0-9a-zA-Z]`, which this contract
/// states; other characters go through a Unicode table and are only named.
#[verifier::external_body]
fn is_word_char(c: char) -> (r: bool)
    ensures
        r == regex_word_char(c),
        (c as u32) < 128 ==> (r <==> (('0' <= c && c <= '9') || ('a' <= c && c <= 'z') || ('A' <= c
            && c <= 'Z') || c == '_')),
{
    regex_syntax::is_word_character(c)
}

/// `regex::Regex::is_match` for the pattern `\A\d\z`: whether one character is
/// in the `\d` class. The class table (`Nd`) starts with the ASCII digits and
/// holds no other ASCII character, which this contract states; other
/// characters are only named.
#[verifier::external_body]
fn is_decimal_digit(c: char) -> (r: bool)
    ensures
        r == regex_decimal_digit(c),
        (c as u32) < 128 ==> (r <==> ('0' <= c && c <= '9')),
{
    match regex::Regex::new(r"\A\d\z") {
        Ok(re) => re.is_match(c.encode_utf8(&mut [0u8; 4])),
        Err(_) => false,
    }
}

/// The character classes that the patterns repeat.
#[derive(Clone, Copy, PartialEq, Eq, Structural)]
pub enum Class {
    /// `\w`
    Word,
    /// `\d`
    Digit,
    /// `[^@/\n]`
    NotAtSlashNewline,
    /// `[^:/\n]`
    NotColonSlashNewline,
}

/// `c` belongs to the class.
pub open spec fn in_class(cls: Class, c: char) -> bool {
    match cls {
        Class::Word => regex_word_char(c),
        Class::Digit => regex_decimal_digit(c),
        Class::NotAtSlashNewline => c != '@' && c != '/' && c != '\n',
        Class::NotColonSlashNewline => c != ':' && c != '/' && c != '\n',
    }
}

/// Whether `c` belongs to the class.
pub fn in_class_exec(cls: Class, c: char) -> (r: bool)
    ensures
        r == in_class(cls, c),
{
    match cls {
        Class::Word => is_word_char(c),
        Class::Digit => is_decimal_digit(c),
        Class::NotAtSlashNewline => c != '@' && c != '/' && c != '\n',
        Class::NotColonSlashNewline => c != ':' && c != '/' && c != '\n',
    }
}

/// The end of the longest run of class characters that starts at `i`.
pub open spec fn class_end(s: Seq<char>, i: int, cls: Class) -> int
    decreases s.len() - i,
{
    if i < 0 || i >= s.len() || !in_class(cls, s[i]) {
        i
    } else {
        class_end(s, i + 1, cls)
    }
}

pub proof fn lemma_class_end(s: Seq<char>, i: int, cls: Class)
    requires
        0 <= i <= s.len(),
    ensures
        i <= class_end(s, i, cls) <= s.len(),
        forall|j: int| i <= j < class_end(s, i, cls) ==> in_class(cls, #[trigger] s[j]),
        class_end(s, i, cls) < s.len() ==> !in_class(cls, s[class_end(s, i, cls)]),
    decreases s.len() - i,
{
    if i < s.len() && in_class(cls, s[i]) {
        lemma_class_end(s, i + 1, cls);
    }
}

/// The end of the longest run of class characters that starts at `i`.
pub fn class_end_exec(s: &[char], i: usize, cls: Class) -> (e: usize)
    requires
        i <= s.len(),
    ensures
        e == class_end(s@, i as int, cls),
        i <= e <= s.len(),
{
    proof {
        lemma_class_end(s@, i as int, cls);
    }
    let mut e: usize = i;
    while e < s.len() && in_class_exec(cls, s[e])
        invariant
            i <= e <= s.len(),
            class_end(s@, e as int, cls) == class_end(s@, i as int, cls),
        decreases s.len() - e,
    {
        e = e + 1;
    }
    e
}

} // verus!
