//! The return addresses found by walking the stack.
use vstd::prelude::*;
use crate::text::{decimal, hex_fixed, push_decimal, push_hex_fixed};

verus! {

/// Up to 512 return addresses, and how many of them were found.
pub struct StackWalk(pub [u64; 512], pub u64);

impl StackWalk {
    pub open spec fn wf(&self) -> bool {
        self.1 <= 512
    }

    /// The number of addresses found.
    pub fn len(&self) -> (r: usize)
        ensures
            r == self.1 as usize,
    {
        self.1 as usize
    }

    /// Calls `f` with each address found and its position, innermost first.
    pub fn unwind<F: Fn(u64, usize)>(&self, f: F)
        requires
            self.wf(),
            forall|i: int| 0 <= i < self.1 ==> call_requires(f, (#[trigger] self.0@[i], i as usize)),
    {
        let n = self.len();
        let mut i: usize = 0;
        while i < n
            invariant
                self.wf(),
                n == self.1,
                i <= n,
                forall|j: int| 0 <= j < self.1 ==> call_requires(f, (#[trigger] self.0@[j], j as usize)),
            decreases n - i,
        {
            f(self.0[i], i);
            i = i + 1;
        }
    }
}

/// The line a panic report shows for the return address `adr` found at
/// position `i`: the position in brackets and the address as sixteen
/// upper-case hexadecimal digits.
pub open spec fn frame_line(adr: u64, i: usize) -> Seq<char> {
    "["@ + decimal(i as nat) + "]: 0x"@ + hex_fixed(adr as nat, 16, true)
}

/// The line a panic report shows for the return address `adr` found at
/// position `i`.
pub fn frame_text(adr: u64, i: usize) -> (r: String)
    ensures
        r@ == frame_line(adr, i),
{
    let mut out = String::from_str("[");
    push_decimal(&mut out, i as u64);
    out.append("]: 0x");
    push_hex_fixed(&mut out, adr, 16, true);
    out
}

} // verus!
