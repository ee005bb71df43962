use vstd::prelude::*;

verus! {

/// A requested length did not fit into a container's fixed capacity.
///
/// `length` is the total number of bytes the operation would have needed,
/// `capacity` the number of bytes the container can hold.
#[derive(Debug, Clone, Copy, PartialEq, Eq)]
pub struct ExceedsCapacity {
    /// Length that the failed operation would have required
    pub length: usize,

    /// Capacity of the container
    pub capacity: usize,
}

/// The character for a single decimal digit.
pub open spec fn digit_char(d: nat) -> char {
    if d == 0 {
        '0'
    } else if d == 1 {
        '1'
    } else if d == 2 {
        '2'
    } else if d == 3 {
        '3'
    } else if d == 4 {
        '4'
    } else if d == 5 {
        '5'
    } else if d == 6 {
        '6'
    } else if d == 7 {
        '7'
    } else if d == 8 {
        '8'
    } else {
        '9'
    }
}

/// The decimal representation of `n`, most significant digit first.
pub open spec fn dec_str(n: nat) -> Seq<char>
    decreases n,
{
    if n < 10 {
        seq![digit_char(n)]
    } else {
        dec_str(n / 10).push(digit_char(n % 10))
    }
}

/// Renders `n` in decimal.
pub fn dec_string(n: usize) -> (r: String)
    ensures
        r@ == dec_str(n as nat),
    decreases n,
{
    proof {
        reveal_strlit("0");
        reveal_strlit("1");
        reveal_strlit("2");
        reveal_strlit("3");
        reveal_strlit("4");
        reveal_strlit("5");
        reveal_strlit("6");
        reveal_strlit("7");
        reveal_strlit("8");
        reveal_strlit("9");
    }
    let d = n % 10;
    let digit: &str = match d {
        0 => "0",
        1 => "1",
        2 => "2",
        3 => "3",
        4 => "4",
        5 => "5",
        6 => "6",
        7 => "7",
        8 => "8",
        _ => "9",
    };
    if n < 10 {
        String::from_str(digit)
    } else {
        let mut s = dec_string(n / 10);
        s.append(digit);
        s
    }
}

/// The text that describes a capacity failure.
pub open spec fn msg_chars(length: nat, capacity: nat) -> Seq<char> {
    "String length ("@ + dec_str(length) + ") exceeds capacity ("@ + dec_str(capacity) + ")"@
}

impl ExceedsCapacity {
    /// Human-readable description of the failure.
    pub fn message(&self) -> (r: String)
        ensures
            r@ == msg_chars(self.length as nat, self.capacity as nat),
    {
        let mut s = String::from_str("String length (");
        let l = dec_string(self.length);
        s.append(l.as_str());
        s.append(") exceeds capacity (");
        let c = dec_string(self.capacity);
        s.append(c.as_str());
        s.append(")");
        s
    }
}

} // verus!
