//! The addresses of nodes and clients.
//!
//! On the wire a node is `n` followed by its index in decimal, a client `c`
//! followed by its index. This module holds the two address types, the
//! function that writes an address and the function that reads one. Reading
//! accepts what the standard parser of unsigned integers accepts after the
//! letter: an optional `+`, then one or more decimal digits whose value fits
//! a `usize`.
use vstd::prelude::*;
use vstd::std_specs::iter::IteratorSpec;
use vstd::string::StringExecFns;

verus! {

broadcast use vstd::string::group_string_axioms;

/// Why a text is no address.
#[derive(Clone, Copy, Debug, PartialEq, Eq, Structural)]
pub enum AddressError {
    /// The text does not start with the letter of the kind of address.
    Format,
    /// What follows the letter is no index that fits a `usize`.
    Index,
}

/// Says whether `c` is one of the ten decimal digits.
pub open spec fn is_digit(c: char) -> bool {
    '0' <= c <= '9'
}

/// Says whether `s` holds decimal digits only.
pub open spec fn all_digits(s: Seq<char>) -> bool {
    forall|i: int| 0 <= i < s.len() ==> is_digit(#[trigger] s[i])
}

/// The number that the digits of `s` denote in decimal.
pub open spec fn digits_value(s: Seq<char>) -> nat
    decreases s.len(),
{
    if s.len() == 0 {
        0
    } else {
        digits_value(s.drop_last()) * 10 + (s.last() as nat - '0' as nat) as nat
    }
}

/// The digit that stands for `d`, which is below ten.
pub open spec fn digit_char(d: nat) -> char {
    ('0' as nat + d) as char
}

/// The decimal digits of `n`, without leading zeros.
pub open spec fn decimal(n: nat) -> Seq<char>
    decreases n,
{
    if n < 10 {
        seq![digit_char(n)]
    } else {
        decimal(n / 10).push(digit_char(n % 10))
    }
}

/// The address of the node or client of kind `prefix` with index `index`.
pub open spec fn address_of(prefix: char, index: nat) -> Seq<char> {
    seq![prefix] + decimal(index)
}

/// The part of an address that holds the index: what follows the letter
/// and, if there is one, the `+` after it.
pub open spec fn index_text(s: Seq<char>) -> Seq<char> {
    if s.len() >= 2 && s[1] == '+' {
        s.subrange(2, s.len() as int)
    } else {
        s.subrange(1, s.len() as int)
    }
}

/// The index that the address `s` of kind `prefix` names, or why `s` is no
/// such address.
pub open spec fn address_index(prefix: char, s: Seq<char>) -> Result<usize, AddressError> {
    if s.len() == 0 || s[0] != prefix {
        Err(AddressError::Format)
    } else {
        let digits = index_text(s);
        if digits.len() > 0 && all_digits(digits) && digits_value(digits) <= usize::MAX {
            Ok(digits_value(digits) as usize)
        } else {
            Err(AddressError::Index)
        }
    }
}

/// A longer run of digits denotes no smaller number than its beginning.
pub proof fn lemma_digits_value_grows(s: Seq<char>, k: int)
    requires
        0 <= k <= s.len(),
    ensures
        digits_value(s.take(k)) <= digits_value(s),
    decreases s.len(),
{
    if k < s.len() {
        lemma_digits_value_grows(s.drop_last(), k);
        assert(s.drop_last().take(k) =~= s.take(k));
    } else {
        assert(s.take(k) =~= s);
    }
}

/// The decimal digits of a number are digits, at least one, and denote
/// that number.
pub proof fn lemma_decimal(n: nat)
    ensures
        decimal(n).len() > 0,
        all_digits(decimal(n)),
        digits_value(decimal(n)) == n,
        decimal(n)[0] != '+',
    decreases n,
{
    if n < 10 {
        assert(digits_value(decimal(n).drop_last()) == 0);
    } else {
        lemma_decimal(n / 10);
        assert(decimal(n).drop_last() =~= decimal(n / 10));
    }
}

/// Reading what was written gives the index back.
pub proof fn lemma_address_round_trip(prefix: char, index: usize)
    ensures
        address_index(prefix, address_of(prefix, index as nat)) == Ok::<usize, AddressError>(index),
{
    lemma_decimal(index as nat);
    let s = address_of(prefix, index as nat);
    assert(index_text(s) =~= decimal(index as nat));
}

/// Reads the index out of an address of kind `prefix`.
pub fn parse_address(prefix: char, text: &str) -> (res: Result<usize, AddressError>)
    ensures
        res == address_index(prefix, text@),
{
    let ghost s = text@;
    let mut at_letter = true;
    let mut after_letter = false;
    let mut any_digit = false;
    let mut value: usize = 0;
    let ghost mut start: int = 1;
    for c in it: text.chars()
        invariant
            s == text@,
            it.seq() == s,
            at_letter <==> it.index() == 0,
            after_letter <==> it.index() == 1,
            !at_letter ==> s[0] == prefix,
            !at_letter && !after_letter ==> {
                &&& start == if s[1] == '+' { 2int } else { 1int }
                &&& start <= it.index()
                &&& any_digit <==> start < it.index()
                &&& all_digits(s.subrange(start, it.index()))
                &&& value == digits_value(s.subrange(start, it.index()))
            },
            at_letter || after_letter ==> !any_digit && value == 0,
    {
        let ghost i = it.index();
        if at_letter {
            if c != prefix {
                return Err(AddressError::Format);
            }
            at_letter = false;
            after_letter = true;
        } else {
            let first = after_letter;
            if after_letter {
                after_letter = false;
                proof {
                    start = if c == '+' { 2int } else { 1int };
                }
            }
            proof {
                let digits = index_text(s);
                if i >= start {
                    assert(s.subrange(start, i + 1).drop_last() =~= s.subrange(start, i));
                    assert(s.subrange(start, i + 1) =~= digits.take(i + 1 - start));
                    if all_digits(digits) {
                        lemma_digits_value_grows(digits, i + 1 - start);
                    }
                }
            }
            if first && c == '+' {
            } else if '0' <= c && c <= '9' {
                let digit = (c as u32 - '0' as u32) as usize;
                value = match value.checked_mul(10) {
                    Some(tens) => match tens.checked_add(digit) {
                        Some(next) => next,
                        None => {
                            return Err(AddressError::Index);
                        },
                    },
                    None => {
                        return Err(AddressError::Index);
                    },
                };
                any_digit = true;
                proof {
                    let now = s.subrange(start, i + 1);
                    assert(all_digits(now));
                    assert(digits_value(now) == digits_value(now.drop_last()) * 10 + digit);
                }
            } else {
                return Err(AddressError::Index);
            }
        }
    }
    if at_letter {
        return Err(AddressError::Format);
    }
    if any_digit {
        Ok(value)
    } else {
        Err(AddressError::Index)
    }
}

/// The text of one decimal digit.
fn digit_text(d: usize) -> (text: &'static str)
    requires
        d < 10,
    ensures
        text@ == seq![digit_char(d as nat)],
{
    proof {
        reveal_strlit("0");
        reveal_strlit("1");
        reveal_strlit("2");
        reveal_strlit("3");
        reveal_strlit("4");
        reveal_strlit("5");
        reveal_strlit("6");
        reveal_strlit("7");
        reveal_strlit("8");
        reveal_strlit("9");
    }
    let text = match d {
        0 => "0",
        1 => "1",
        2 => "2",
        3 => "3",
        4 => "4",
        5 => "5",
        6 => "6",
        7 => "7",
        8 => "8",
        _ => "9",
    };
    text
}

/// Appends the decimal digits of `index` to `out`.
fn write_index(out: &mut String, index: usize)
    ensures
        final(out)@ == old(out)@ + decimal(index as nat),
    decreases index,
{
    if index >= 10 {
        write_index(out, index / 10);
    }
    out.append(digit_text(index % 10));
}

/// The address of a node: `n` and the node's index.
#[derive(Clone, Copy, Debug, Hash, PartialEq, Eq, Structural)]
pub struct Node(pub usize);

/// The address of a client: `c` and the client's index.
#[derive(Clone, Copy, Debug, Hash, PartialEq, Eq, Structural)]
pub struct Client(pub usize);

impl Node {
    /// The letter that starts the address of a node.
    pub open spec fn letter() -> char {
        'n'
    }

    /// Reads the address of a node.
    pub fn parse(text: &str) -> (res: Result<Node, AddressError>)
        ensures
            res == match address_index(Node::letter(), text@) {
                Ok(index) => Ok::<Node, AddressError>(Node(index)),
                Err(error) => Err(error),
            },
    {
        match parse_address('n', text) {
            Ok(index) => Ok(Node(index)),
            Err(error) => Err(error),
        }
    }

    /// Writes the address of the node. [`Node::parse`] reads it back.
    pub fn address(&self) -> (text: String)
        ensures
            text@ == address_of(Node::letter(), self.0 as nat),
            address_index(Node::letter(), text@) == Ok::<usize, AddressError>(self.0),
    {
        let mut text = "n".to_owned();
        proof {
            reveal_strlit("n");
            lemma_address_round_trip('n', self.0);
        }
        write_index(&mut text, self.0);
        assert(text@ =~= address_of('n', self.0 as nat));
        text
    }
}

impl Client {
    /// The letter that starts the address of a client.
    pub open spec fn letter() -> char {
        'c'
    }

    /// Reads the address of a client.
    pub fn parse(text: &str) -> (res: Result<Client, AddressError>)
        ensures
            res == match address_index(Client::letter(), text@) {
                Ok(index) => Ok::<Client, AddressError>(Client(index)),
                Err(error) => Err(error),
            },
    {
        match parse_address('c', text) {
            Ok(index) => Ok(Client(index)),
            Err(error) => Err(error),
        }
    }

    /// Writes the address of the client. [`Client::parse`] reads it back.
    pub fn address(&self) -> (text: String)
        ensures
            text@ == address_of(Client::letter(), self.0 as nat),
            address_index(Client::letter(), text@) == Ok::<usize, AddressError>(self.0),
    {
        let mut text = "c".to_owned();
        proof {
            reveal_strlit("c");
            lemma_address_round_trip('c', self.0);
        }
        write_index(&mut text, self.0);
        assert(text@ =~= address_of('c', self.0 as nat));
        text
    }
}

} // verus!
