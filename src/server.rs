//! The small helpers behind the HTTP endpoints.
use vstd::prelude::*;
use crate::numeral::{digits_of, push_digits};
use crate::text::{chars_of, push_str, string_of};

verus! {

/// The greeting for `name` of `age` years.
pub open spec fn greeting(name: Seq<char>, age: nat) -> Seq<char> {
    "Hello, "@ + digits_of(age, 10) + " year old named "@ + name + "!"@
}

/// Greets `name`, who is `age` years old.
pub fn hello(name: String, age: u8) -> (r: String)
    ensures
        r@ == greeting(name@, age as nat),
{
    let mut out = chars_of("Hello, ");
    push_digits(&mut out, age as u64, 10);
    push_str(&mut out, " year old named ");
    push_str(&mut out, name.as_str());
    push_str(&mut out, "!");
    string_of(&out)
}

/// The text of the root page.
pub fn index() -> (r: &'static str)
    ensures
        r@ == "Hello, world!!!"@,
{
    "Hello, world!!!"
}

/// The 64 bytes of `a` followed by those of `b`.
pub fn concat_arrays(a: [u8; 32], b: [u8; 32]) -> (r: [u8; 64])
    ensures
        r@ == a@ + b@,
{
    let mut result: [u8; 64] = [0u8; 64];
    let mut i: usize = 0;
    while i < 64
        invariant
            i <= 64,
            result@.len() == 64,
            forall|j: int| 0 <= j < i ==> #[trigger] result@[j] == (a@ + b@)[j],
        decreases 64 - i,
    {
        if i < 32 {
            result[i] = a[i];
        } else {
            result[i] = b[i - 32];
        }
        i = i + 1;
    }
    assert(result@ =~= a@ + b@);
    result
}

} // verus!
