//! Text rendering with exact contracts.
use vstd::prelude::*;
use vstd::string::{StrSliceExecFns, StringExecFns};

verus! {

/// Decimal digits of a number.
pub open spec fn decimal(n: nat) -> Seq<char>
    decreases n,
{
    if n < 10 {
        seq![digit(n)]
    } else {
        decimal(n / 10).push(digit(n % 10))
    }
}

/// The digit for a number below ten.
pub open spec fn digit(n: nat) -> char {
    if n == 0 {
        '0'
    } else if n == 1 {
        '1'
    } else if n == 2 {
        '2'
    } else if n == 3 {
        '3'
    } else if n == 4 {
        '4'
    } else if n == 5 {
        '5'
    } else if n == 6 {
        '6'
    } else if n == 7 {
        '7'
    } else if n == 8 {
        '8'
    } else {
        '9'
    }
}

/// The digit for a number below ten, as text.
fn digit_text(n: u64) -> (text: &'static str)
    requires
        n < 10,
    ensures
        text@ == seq![digit(n as nat)],
{
    proof {
        reveal_strlit("0");
        reveal_strlit("1");
        reveal_strlit("2");
        reveal_strlit("3");
        reveal_strlit("4");
        reveal_strlit("5");
        reveal_strlit("6");
        reveal_strlit("7");
        reveal_strlit("8");
        reveal_strlit("9");
    }
    if n == 0 {
        "0"
    } else if n == 1 {
        "1"
    } else if n == 2 {
        "2"
    } else if n == 3 {
        "3"
    } else if n == 4 {
        "4"
    } else if n == 5 {
        "5"
    } else if n == 6 {
        "6"
    } else if n == 7 {
        "7"
    } else if n == 8 {
        "8"
    } else {
        "9"
    }
}

/// Decimal text of a number.
pub fn decimal_text(n: u64) -> (text: String)
    ensures
        text@ == decimal(n as nat),
    decreases n,
{
    if n < 10 {
        digit_text(n).to_owned()
    } else {
        let mut text = decimal_text(n / 10);
        let last = digit_text(n % 10);
        text.append(last);
        proof {
            assert(text@ =~= decimal((n / 10) as nat).push(digit((n % 10) as nat)));
        }
        text
    }
}

/// Two texts, one after the other.
pub fn joined(first: String, second: &str) -> (text: String)
    ensures
        text@ == first@ + second@,
{
    let mut text = first;
    text.append(second);
    text
}

/// The texts agree before position `i`, where the first one ends or has the smaller character.
pub open spec fn precedes_at(a: Seq<char>, b: Seq<char>, i: int) -> bool {
    &&& 0 <= i <= a.len()
    &&& i < b.len()
    &&& forall|j: int| 0 <= j < i ==> a[j] == b[j]
    &&& i == a.len() || (a[i] as int) < (b[i] as int)
}

/// The first text stands before the second one in character order.
pub open spec fn precedes(a: Seq<char>, b: Seq<char>) -> bool {
    exists|i: int| #[trigger] precedes_at(a, b, i)
}

/// Character order is a strict order.
pub proof fn lemma_precedes(a: Seq<char>, b: Seq<char>, c: Seq<char>)
    ensures
        !precedes(a, a),
        precedes(a, b) ==> !precedes(b, a),
        precedes(a, b) && precedes(b, c) ==> precedes(a, c),
{
    if precedes(a, b) && precedes(b, a) {
        let i = choose|i: int| #[trigger] precedes_at(a, b, i);
        let j = choose|j: int| #[trigger] precedes_at(b, a, j);
        if i < j {
            assert(a[i] == b[i]);
        } else if j < i {
            assert(a[j] == b[j]);
        }
    }
    if precedes(a, b) && precedes(b, c) {
        let i = choose|i: int| #[trigger] precedes_at(a, b, i);
        let j = choose|j: int| #[trigger] precedes_at(b, c, j);
        let k = if i < j {
            i
        } else {
            j
        };
        if i < j {
            assert(b[i] == c[i]);
        }
        assert(precedes_at(a, c, k));
    }
}

/// How two texts stand in character order.
#[derive(Clone, Copy, Debug, PartialEq, Eq, Structural)]
pub enum TextOrder {
    Before,
    Same,
    After,
}

/// Find how two texts stand in character order.
pub fn text_order(a: &str, b: &str) -> (r: TextOrder)
    ensures
        match r {
            TextOrder::Before => precedes(a@, b@),
            TextOrder::Same => a@ == b@,
            TextOrder::After => precedes(b@, a@),
        },
{
    let a_len: usize = a.unicode_len();
    let b_len: usize = b.unicode_len();
    let mut i: usize = 0;
    while i < a_len && i < b_len
        invariant
            a_len == a@.len(),
            b_len == b@.len(),
            i <= a_len,
            i <= b_len,
            forall|j: int| 0 <= j < i ==> a@[j] == b@[j],
        decreases a_len - i,
    {
        let x: u32 = a.get_char(i) as u32;
        let y: u32 = b.get_char(i) as u32;
        if x < y {
            proof {
                assert(precedes_at(a@, b@, i as int));
            }
            return TextOrder::Before;
        }
        if y < x {
            proof {
                assert(precedes_at(b@, a@, i as int));
            }
            return TextOrder::After;
        }
        i = i + 1;
    }
    if i < b_len {
        proof {
            assert(precedes_at(a@, b@, i as int));
        }
        TextOrder::Before
    } else if i < a_len {
        proof {
            assert(precedes_at(b@, a@, i as int));
        }
        TextOrder::After
    } else {
        proof {
            assert(a@ =~= b@);
        }
        TextOrder::Same
    }
}

} // verus!
