//! The text by which a node is named on the wire.
//!
//! External tooling reads these names, so they are part of the format: a
//! system is `System(3)`, a system set is `Set(3)`, the index in decimal.

use crate::graph::NodeId;
use vstd::prelude::*;
use vstd::string::StringExecFns;

verus! {

/// The character of a decimal digit.
pub open spec fn digit_char(digit: int) -> char {
    if digit == 0 {
        '0'
    } else if digit == 1 {
        '1'
    } else if digit == 2 {
        '2'
    } else if digit == 3 {
        '3'
    } else if digit == 4 {
        '4'
    } else if digit == 5 {
        '5'
    } else if digit == 6 {
        '6'
    } else if digit == 7 {
        '7'
    } else if digit == 8 {
        '8'
    } else {
        '9'
    }
}

/// The decimal numeral of `n`, without leading zeros.
pub open spec fn decimal(n: nat) -> Seq<char>
    decreases n,
{
    if n < 10 {
        seq![digit_char(n as int)]
    } else {
        decimal(n / 10).push(digit_char((n % 10) as int))
    }
}

/// The name of a node on the wire.
pub open spec fn node_id_text(id: NodeId) -> Seq<char> {
    match id {
        NodeId::System(index) => seq!['S', 'y', 's', 't', 'e', 'm', '('] + decimal(index as nat)
            + seq![')'],
        NodeId::SystemSet(index) => seq!['S', 'e', 't', '('] + decimal(index as nat) + seq![')'],
    }
}

/// The numeral of one decimal digit.
fn digit_str(digit: usize) -> (text: &'static str)
    requires
        digit < 10,
    ensures
        text@ == seq![digit_char(digit as int)],
{
    proof {
        reveal_strlit("0");
        reveal_strlit("1");
        reveal_strlit("2");
        reveal_strlit("3");
        reveal_strlit("4");
        reveal_strlit("5");
        reveal_strlit("6");
        reveal_strlit("7");
        reveal_strlit("8");
        reveal_strlit("9");
    }
    let text = if digit == 0 {
        "0"
    } else if digit == 1 {
        "1"
    } else if digit == 2 {
        "2"
    } else if digit == 3 {
        "3"
    } else if digit == 4 {
        "4"
    } else if digit == 5 {
        "5"
    } else if digit == 6 {
        "6"
    } else if digit == 7 {
        "7"
    } else if digit == 8 {
        "8"
    } else {
        "9"
    };
    proof {
        assert(text@ =~= seq![digit_char(digit as int)]);
    }
    text
}

/// Appends the decimal numeral of `n` to `text`.
pub fn push_decimal(text: &mut String, n: usize)
    ensures
        final(text)@ == old(text)@ + decimal(n as nat),
    decreases n,
{
    if n >= 10 {
        push_decimal(text, n / 10);
    }
    let ghost before = text@;
    text.append(digit_str(n % 10));
    proof {
        if n >= 10 {
            assert(text@ =~= old(text)@ + decimal((n / 10) as nat).push(
                digit_char((n % 10) as int),
            ));
        } else {
            assert(text@ =~= old(text)@ + seq![digit_char(n as int)]);
        }
    }
}

/// The name of `id` on the wire.
pub fn get_node_id(id: &NodeId) -> (text: String)
    ensures
        text@ == node_id_text(*id),
{
    proof {
        reveal_strlit("System(");
        reveal_strlit("Set(");
        reveal_strlit(")");
    }
    match *id {
        NodeId::System(index) => {
            let mut text = String::from_str("System(");
            push_decimal(&mut text, index);
            text.append(")");
            proof {
                assert("System("@ =~= seq!['S', 'y', 's', 't', 'e', 'm', '(']);
                assert(")"@ =~= seq![')']);
            }
            text
        },
        NodeId::SystemSet(index) => {
            let mut text = String::from_str("Set(");
            push_decimal(&mut text, index);
            text.append(")");
            proof {
                assert("Set("@ =~= seq!['S', 'e', 't', '(']);
                assert(")"@ =~= seq![')']);
            }
            text
        },
    }
}

} // verus!
