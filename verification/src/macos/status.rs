//! Status codes of Core Audio.

use vstd::prelude::*;

use crate::text::{join, join3, signed_decimal, to_signed_decimal};
use crate::types::{Error, ErrorView};

verus! {

/// Success.
pub const NO_ERR: i32 = 0;

/// `nope`: refused, as without permission.
pub const ILLEGAL_OPERATION: i32 = 0x6e6f7065;

/// `stop`: not running.
pub const NOT_RUNNING: i32 = 0x73746f70;

/// `!obj`: not a valid object.
pub const BAD_OBJECT: i32 = 0x216f626a;

/// `!dev`: not a valid device.
pub const BAD_DEVICE: i32 = 0x21646576;

/// `!siz`: the size changed between asking for it and reading.
pub const BAD_PROPERTY_SIZE: i32 = 0x2173697a;

/// The format that is taken where none can be read: rate and channels.
pub const FALLBACK_FORMAT: (u32, u16) = (48_000, 2);

/// A status as an unsigned number with the same bits.
pub open spec fn unsigned(status: i32) -> int {
    if status < 0 {
        status + 0x1_0000_0000
    } else {
        status as int
    }
}

/// One of the four bytes of a status, the most significant being 0.
pub open spec fn status_byte(status: i32, i: int) -> int {
    if i == 0 {
        unsigned(status) / 0x100_0000
    } else if i == 1 {
        unsigned(status) / 0x1_0000 % 0x100
    } else if i == 2 {
        unsigned(status) / 0x100 % 0x100
    } else {
        unsigned(status) % 0x100
    }
}

/// Whether all four bytes are printable ASCII.
pub open spec fn is_four_cc(status: i32) -> bool {
    forall|i: int| 0 <= i < 4 ==> 0x20 <= #[trigger] status_byte(status, i) <= 0x7e
}

/// The four bytes as characters.
pub open spec fn four_cc(status: i32) -> Seq<char> {
    seq![
        status_byte(status, 0) as char,
        status_byte(status, 1) as char,
        status_byte(status, 2) as char,
        status_byte(status, 3) as char,
    ]
}

/// A printable ASCII character.
fn printable_char(b: u32) -> (res: &'static str)
    requires
        0x20 <= b <= 0x7e,
    ensures
        res@ == seq![b as char],
{
    let all: &'static str =
        " !\"#$%&'()*+,-./0123456789:;<=>?@ABCDEFGHIJKLMNOPQRSTUVWXYZ[\\]^_`abcdefghijklmnopqrstuvwxyz{|}~";
    proof {
        reveal_strlit(
            " !\"#$%&'()*+,-./0123456789:;<=>?@ABCDEFGHIJKLMNOPQRSTUVWXYZ[\\]^_`abcdefghijklmnopqrstuvwxyz{|}~",
        );
        assert(all@.len() == 95);
    }
    let at: usize = b as usize - 0x20;
    let c: &'static str = all.substring_char(at, at + 1);
    assert(all@[at as int] == b as char);
    assert(c@ =~= seq![b as char]);
    c
}

/// The error for a status.
///
/// A refusal counts as denied permission, and an invalid device as one that is not there. Any
/// other status is reported, as its four characters where they are printable.
pub open spec fn status_error(ctx: Seq<char>, status: i32) -> ErrorView {
    if status == ILLEGAL_OPERATION {
        ErrorView::PermissionDenied
    } else if status == BAD_DEVICE {
        ErrorView::DeviceNotFound
    } else if status == NOT_RUNNING {
        ErrorView::Backend(ctx + ": CoreAudio not running (OSStatus 'stop')"@)
    } else if status == BAD_OBJECT {
        ErrorView::Backend(ctx + ": bad audio object (OSStatus '!obj')"@)
    } else if is_four_cc(status) {
        ErrorView::Backend(
            ctx + ": OSStatus '"@ + four_cc(status) + "' ("@ + signed_decimal(status as int) + ")"@,
        )
    } else {
        ErrorView::Backend(ctx + ": OSStatus "@ + signed_decimal(status as int))
    }
}

/// Turns a status into an error, with the call that gave it.
pub fn map_os_status(ctx: &str, status: i32) -> (res: Error)
    ensures
        res@ == status_error(ctx@, status),
{
    if status == ILLEGAL_OPERATION {
        return Error::PermissionDenied;
    }
    if status == BAD_DEVICE {
        return Error::DeviceNotFound;
    }
    if status == NOT_RUNNING {
        return Error::Backend(join(ctx, ": CoreAudio not running (OSStatus 'stop')"));
    }
    if status == BAD_OBJECT {
        return Error::Backend(join(ctx, ": bad audio object (OSStatus '!obj')"));
    }
    let bits: u32 = if status < 0 {
        (status as i64 + 0x1_0000_0000) as u32
    } else {
        status as u32
    };
    let b0: u32 = bits / 0x100_0000;
    let b1: u32 = bits / 0x1_0000 % 0x100;
    let b2: u32 = bits / 0x100 % 0x100;
    let b3: u32 = bits % 0x100;
    let shown: String = to_signed_decimal(status as i64);
    proof {
        assert(b0 == status_byte(status, 0));
        assert(b1 == status_byte(status, 1));
        assert(b2 == status_byte(status, 2));
        assert(b3 == status_byte(status, 3));
    }
    if 0x20 <= b0 && b0 <= 0x7e && 0x20 <= b1 && b1 <= 0x7e && 0x20 <= b2 && b2 <= 0x7e && 0x20
        <= b3 && b3 <= 0x7e {
        let mut m: String = join(ctx, ": OSStatus '");
        m.append(printable_char(b0));
        m.append(printable_char(b1));
        m.append(printable_char(b2));
        m.append(printable_char(b3));
        m.append("' (");
        m.append(shown.as_str());
        m.append(")");
        proof {
            assert(is_four_cc(status)) by {
                assert forall|i: int| 0 <= i < 4 implies 0x20 <= #[trigger] status_byte(status, i)
                    <= 0x7e by {
                    if i == 0 {
                    } else if i == 1 {
                    } else if i == 2 {
                    }
                }
            }
            assert(m@ =~= ctx@ + ": OSStatus '"@ + four_cc(status) + "' ("@ + signed_decimal(
                status as int,
            ) + ")"@);
        }
        Error::Backend(m)
    } else {
        Error::Backend(join3(ctx, ": OSStatus ", shown.as_str()))
    }
}

/// The four bytes of a status are its own: together they make up the status again, read without
/// its sign, and each is a byte.
pub proof fn lemma_bytes_of_a_status(status: i32)
    ensures
        ({
            let whole = status_byte(status, 0) * 0x100_0000 + status_byte(status, 1) * 0x1_0000
                + status_byte(status, 2) * 0x100 + status_byte(status, 3);
            &&& status >= 0 ==> whole == status
            &&& status < 0 ==> whole == status + 0x1_0000_0000
        }),
        forall|i: int| 0 <= i < 4 ==> 0 <= #[trigger] status_byte(status, i) < 0x100,
        four_cc(status).len() == 4,
        is_four_cc(status) ==> forall|i: int|
            0 <= i < 4 ==> #[trigger] four_cc(status)[i] as int == status_byte(status, i),
        is_four_cc(status) <==> forall|i: int|
            0 <= i < 4 ==> ' ' as int <= #[trigger] status_byte(status, i) <= '~' as int,
{
    let u = unsigned(status);
    assert(u / 0x1_0000 == u / 0x100 / 0x100) by (nonlinear_arith);
    assert(u / 0x100_0000 == u / 0x100 / 0x100 / 0x100) by (nonlinear_arith);
    assert(0 <= u < 0x1_0000_0000);
    if is_four_cc(status) {
        assert forall|i: int| 0 <= i < 4 implies #[trigger] four_cc(status)[i] as int
            == status_byte(status, i) by {
            assert(0x20 <= status_byte(status, i) <= 0x7e);
        }
    }
}

/// What a status means: a refusal is a lack of permission, an invalid device one that is not
/// there, and anything else a failure that names the call first.
pub proof fn lemma_meaning_of_a_status(ctx: Seq<char>, status: i32)
    ensures
        status_error(ctx, status) is PermissionDenied <==> status == 0x6e6f7065,
        status_error(ctx, status) is DeviceNotFound <==> status == 0x21646576,
        !(status_error(ctx, status) is UnsupportedOsVersion),
        status == 0x73746f70 ==> status_error(ctx, status) == ErrorView::Backend(
            ctx + ": CoreAudio not running (OSStatus 'stop')"@,
        ),
        status == 0x216f626a ==> status_error(ctx, status) == ErrorView::Backend(
            ctx + ": bad audio object (OSStatus '!obj')"@,
        ),
        status != 0x6e6f7065 && status != 0x21646576 && status != 0x73746f70 && status
            != 0x216f626a && is_four_cc(status) ==> status_error(ctx, status)
            == ErrorView::Backend(
            ctx + ": OSStatus '"@ + four_cc(status) + "' ("@ + signed_decimal(status as int) + ")"@,
        ),
        status != 0x6e6f7065 && status != 0x21646576 && status != 0x73746f70 && status
            != 0x216f626a && !is_four_cc(status) ==> status_error(ctx, status)
            == ErrorView::Backend(ctx + ": OSStatus "@ + signed_decimal(status as int)),
{
}

} // verus!
