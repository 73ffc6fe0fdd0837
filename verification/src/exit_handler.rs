//! What the guest reads where no device answers.
use vstd::prelude::*;

verus! {

/// The value of a bus that no device drives.
pub const FLOATING_BUS: u8 = 0xff;

/// Completes a read of a port or an address: where no device has answered it,
/// every byte reads as the floating bus.
pub fn complete_read(answered: bool, data: &mut [u8])
    ensures
        final(data)@.len() == old(data)@.len(),
        answered ==> final(data)@ == old(data)@,
        !answered ==> forall|i: int|
            0 <= i < final(data)@.len() ==> #[trigger] final(data)@[i] == 0xFF,
{
    if answered {
        return;
    }
    let n: usize = data.len();
    let mut i: usize = 0;
    while i < n
        invariant
            i <= n,
            n == data@.len(),
            n == old(data)@.len(),
            forall|j: int| 0 <= j < i ==> #[trigger] data@[j] == FLOATING_BUS,
        decreases n - i,
    {
        data[i] = FLOATING_BUS;
        i = i + 1;
    }
}

} // verus!
