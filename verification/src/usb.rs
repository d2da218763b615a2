use vstd::prelude::*;

verus! {

/// USB vendor id of a Crazyflie.
pub const CRAZYFLIE_VENDOR_ID: u16 = 0x0483;

/// USB product id of a Crazyflie.
pub const CRAZYFLIE_PRODUCT_ID: u16 = 0x5740;

/// Whether a USB device, by its vendor and product ids, is a Crazyflie.
pub fn is_crazyflie_device(vendor_id: u16, product_id: u16) -> (r: bool)
    ensures
        r == (vendor_id == CRAZYFLIE_VENDOR_ID && product_id == CRAZYFLIE_PRODUCT_ID),
{
    vendor_id == CRAZYFLIE_VENDOR_ID && product_id == CRAZYFLIE_PRODUCT_ID
}

/// The packet held by the first `n` bytes of a USB read buffer; an empty read
/// holds none.
pub fn received_usb_packet(buf: &[u8], n: usize) -> (packet: Option<Vec<u8>>)
    requires
        n <= buf@.len(),
    ensures
        n == 0 ==> packet is None,
        n > 0 ==> (packet matches Some(p) && p@ == buf@.take(n as int)),
{
    if n == 0 {
        return None;
    }
    let mut p: Vec<u8> = Vec::new();
    let mut i: usize = 0;
    while i < n
        invariant
            i <= n,
            n <= buf@.len(),
            p@ == buf@.take(i as int),
        decreases n - i,
    {
        p.push(buf[i]);
        i = i + 1;
        assert(p@ =~= buf@.take(i as int));
    }
    Some(p)
}

} // verus!
