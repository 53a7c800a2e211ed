//! The drum of a single flap: the fixed cyclic order of characters it steps
//! through, and the rule that picks the next face toward a target.

use vstd::prelude::*;

verus! {

/// A printable, non-space ASCII character (`'!'` through `'~'`).
pub open spec fn is_graphic(c: char) -> bool {
    '!' <= c && c <= '~'
}

/// The face a flap showing `c` turns to next on its way to `target`.
pub open spec fn successor(c: char, target: char) -> char {
    if c == target {
        target
    } else if c == 'Z' {
        'a'
    } else if c == 'z' {
        ' '
    } else if c == ' ' {
        '!'
    } else if c == '@' {
        '['
    } else if c == '`' {
        '{'
    } else if c == '~' {
        target
    } else if is_graphic(c) {
        ((c as u32) + 1) as char
    } else {
        'A'
    }
}

/// The drum's faces are exactly the printable ASCII characters, space included.
pub open spec fn in_chain(c: char) -> bool {
    ' ' <= c && c <= '~'
}

/// Number of faces on the drum.
pub open spec fn chain_len() -> int {
    95
}

/// The face at position `i` of the drum: `A`..`Z`, `a`..`z`, space, `!`..`@`,
/// `[`..`` ` ``, `{`..`~`.
pub open spec fn chain_char(i: int) -> char {
    if i < 26 {
        (('A' as int) + i) as char
    } else if i < 52 {
        (('a' as int) + (i - 26)) as char
    } else if i == 52 {
        ' '
    } else if i < 85 {
        (('!' as int) + (i - 53)) as char
    } else if i < 91 {
        (('[' as int) + (i - 85)) as char
    } else {
        (('{' as int) + (i - 91)) as char
    }
}

/// The position of face `c` on the drum.
pub open spec fn chain_index(c: char) -> int {
    if 'A' <= c && c <= 'Z' {
        (c as int) - ('A' as int)
    } else if 'a' <= c && c <= 'z' {
        (c as int) - ('a' as int) + 26
    } else if c == ' ' {
        52
    } else if '!' <= c && c <= '@' {
        (c as int) - ('!' as int) + 53
    } else if '[' <= c && c <= '`' {
        (c as int) - ('[' as int) + 85
    } else {
        (c as int) - ('{' as int) + 91
    }
}

/// Positions and faces correspond one to one.
pub proof fn lemma_chain_bijection()
    ensures
        forall|i: int|
            0 <= i < chain_len() ==> #[trigger] in_chain(chain_char(i)) && chain_index(
                chain_char(i),
            ) == i,
        forall|c: char| #[trigger] in_chain(c) ==> 0 <= chain_index(c) < chain_len() && chain_char(
            chain_index(c),
        ) == c,
{
}

/// A settled flap stays where it is.
pub proof fn lemma_settled_stays(c: char)
    ensures
        successor(c, c) == c,
{
}

/// From the last face, `~`, a flap turns straight to its target.
pub proof fn lemma_last_face_jumps(target: char)
    requires
        target != '~',
    ensures
        successor('~', target) == target,
{
}

/// Toward any target not yet shown, every face but the last turns to the face
/// after it on the drum; the last face `~` turns to the target itself. With a
/// target off the drum, a flap therefore walks the whole drum in order.
pub proof fn lemma_chain_order(target: char)
    ensures
        forall|i: int|
            0 <= i < chain_len() - 1 && chain_char(i) != target ==> #[trigger] successor(
                chain_char(i),
                target,
            ) == chain_char(i + 1),
        chain_char(0) == 'A',
        chain_char(chain_len() - 1) == '~',
        successor('~', target) == target,
{
}

/// Steps one flap showing `c` a single face toward `target`.
pub fn next_char(c: char, target: char) -> (r: char)
    ensures
        r == successor(c, target),
{
    if c == target {
        target
    } else if c == 'Z' {
        'a'
    } else if c == 'z' {
        ' '
    } else if c == ' ' {
        '!'
    } else if c == '@' {
        '['
    } else if c == '`' {
        '{'
    } else if c == '~' {
        target
    } else if '!' <= c && c <= '~' {
        ((c as u8) + 1) as char
    } else {
        'A'
    }
}

} // verus!
