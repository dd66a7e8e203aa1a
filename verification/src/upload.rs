//! How much is handed to the graphics card at once.

use vstd::prelude::*;

verus! {

/// The most bytes that wait for the graphics card together. One texture or
/// buffer may be larger, and then waits alone.
pub const UPLOAD_BATCH_BYTES: u64 = 16_777_216;

/// The bytes that rows are padded to.
pub const ROW_ALIGNMENT: u64 = 256;

/// Whether what waits has to be handed over before more is added.
pub open spec fn overflows(pending: int, bytes: int) -> bool {
    pending > 0 && bytes > 0 && pending + bytes > UPLOAD_BATCH_BYTES
}

/// Adds bytes to what waits. Says whether that had to be handed over first.
pub fn reserve_upload_bytes(pending: &mut u64, bytes: u64) -> (flush: bool)
    ensures
        flush == overflows(*old(pending) as int, bytes as int),
        *final(pending) == if flush {
            bytes as int
        } else {
            *old(pending) + bytes
        },
{
    let room: u64 = if *pending < UPLOAD_BATCH_BYTES {
        UPLOAD_BATCH_BYTES - *pending
    } else {
        0
    };
    let flush = *pending > 0 && bytes > room;
    if flush {
        *pending = bytes;
    } else {
        *pending = *pending + bytes;
    }
    flush
}

/// With something added, what waits does not exceed a batch, unless it is one
/// upload alone.
pub proof fn batches_stay_small(pending: int, bytes: int)
    requires
        0 <= pending,
        0 < bytes,
    ensures
        ({
            let waiting = if overflows(pending, bytes) {
                bytes
            } else {
                pending + bytes
            };
            waiting <= UPLOAD_BATCH_BYTES || waiting == bytes
        }),
{
}

/// The bytes of an image whose rows of pixels are padded.
pub open spec fn image_bytes(width: nat, height: nat) -> nat {
    (4 * width + 255) / 256 * 256 * height
}

/// Half of a side, but at least one.
pub open spec fn halved(side: nat) -> nat {
    if side / 2 < 1 {
        1
    } else {
        side / 2
    }
}

/// The bytes of a texture with all its smaller images, each of half the size
/// of the one before, down to a single pixel.
pub open spec fn texture_bytes(width: nat, height: nat) -> nat
    decreases
            width + height + (if width == 0 {
                2nat
            } else {
                0
            }) + (if height == 0 {
                2nat
            } else {
                0
            }),
{
    image_bytes(width, height) + if width == 1 && height == 1 {
        0
    } else {
        texture_bytes(halved(width), halved(height))
    }
}

/// The bytes that a texture takes up while it waits.
pub fn material_texture_upload_bytes(width: u32, height: u32) -> (bytes: u64)
    requires
        texture_bytes(width as nat, height as nat) <= u64::MAX,
    ensures
        bytes == texture_bytes(width as nat, height as nat),
{
    let mut bytes: u64 = 0;
    let mut w: u32 = width;
    let mut h: u32 = height;
    loop
        invariant
            bytes + texture_bytes(w as nat, h as nat) == texture_bytes(
                width as nat,
                height as nat,
            ),
            texture_bytes(width as nat, height as nat) <= u64::MAX,
        decreases
                w + h + (if w == 0 {
                    2nat
                } else {
                    0
                }) + (if h == 0 {
                    2nat
                } else {
                    0
                }),
    {
        let row: u64 = (4 * w as u64 + 255) / ROW_ALIGNMENT * ROW_ALIGNMENT;
        assert(row == (4 * w + 255) / 256 * 256);
        assert(row * h == image_bytes(w as nat, h as nat));
        assert(texture_bytes(w as nat, h as nat) >= image_bytes(w as nat, h as nat));
        bytes = bytes + row * h as u64;
        if w == 1 && h == 1 {
            return bytes;
        }
        w = if w / 2 < 1 {
            1
        } else {
            w / 2
        };
        h = if h / 2 < 1 {
            1
        } else {
            h / 2
        };
    }
}

} // verus!
