//! The frames of animated WebP files, as far as their sizes go.

use vstd::prelude::*;

verus! {

/// `RIFF` as four bytes, the first being the lowest.
pub const RIFF: u32 = 0x4646_4952;

/// `WEBP`.
pub const WEBP: u32 = 0x5042_4557;

/// `VP8X`.
pub const VP8X: u32 = 0x5838_5056;

/// `ANMF`.
pub const ANMF: u32 = 0x464d_4e41;

/// `ALPH`.
pub const ALPH: u32 = 0x4850_4c41;

/// The number in `n` bytes from `at` on, the first being the lowest.
pub open spec fn little_endian(b: Seq<u8>, at: int, n: nat) -> nat
    decreases n,
{
    if n == 0 {
        0
    } else {
        b[at] as nat + 0x100 * little_endian(b, at + 1, (n - 1) as nat)
    }
}

/// How many bytes a chunk's contents take, where `size` is written in its header.
pub open spec fn rounded(size: nat) -> nat {
    size + size % 2
}

/// Where the contents of the first frame begin, looking at the chunks from `at` on.
pub open spec fn first_frame(b: Seq<u8>, at: int) -> Option<int>
    decreases b.len() - at,
{
    let next = at + 8 + rounded(little_endian(b, at + 4, 4));
    if at + 8 > b.len() {
        None
    } else if little_endian(b, at, 4) == ANMF {
        Some(at + 8)
    } else if next > b.len() {
        None
    } else {
        first_frame(b, next)
    }
}

/// Whether a frame has an alpha chunk first, and a picture behind it that is of
/// another size than the frame.
pub open spec fn uneven_at(b: Seq<u8>, frame: int) -> bool {
    let picture = frame + 32 + rounded(little_endian(b, frame + 20, 4));
    &&& frame + 24 <= b.len()
    &&& little_endian(b, frame + 16, 4) == ALPH
    &&& picture + 10 <= b.len()
    &&& !(little_endian(b, picture + 6, 2) % 0x4000 == little_endian(b, frame + 6, 3) + 1
        && little_endian(b, picture + 8, 2) % 0x4000 == little_endian(b, frame + 9, 3) + 1)
}

/// Whether a file is an animated WebP whose first frame is uneven.
pub open spec fn uneven_frame(b: Seq<u8>) -> bool {
    &&& b.len() > 20
    &&& little_endian(b, 0, 4) == RIFF
    &&& little_endian(b, 8, 4) == WEBP
    &&& little_endian(b, 12, 4) == VP8X
    &&& (b[20] / 2) % 2 == 1
    &&& first_frame(b, 20int + rounded(little_endian(b, 16, 4))) matches Some(frame) && uneven_at(
        b,
        frame,
    )
}

/// The number in up to four bytes from `at` on, the first being the lowest.
fn number_at(b: &[u8], at: usize, n: usize) -> (r: u64)
    requires
        at + n <= b@.len(),
        n <= 4,
    ensures
        r == little_endian(b@, at as int, n as nat),
        r <= 0xffff_ffff,
        n <= 3 ==> r <= 0xff_ffff,
        n <= 2 ==> r <= 0xffff,
        n <= 1 ==> r <= 0xff,
        n == 0 ==> r == 0,
    decreases n,
{
    if n == 0 {
        return 0;
    }
    let byte: u8 = b[at];
    let rest: u64 = number_at(b, at + 1, n - 1);
    byte as u64 + 0x100 * rest
}

fn rounded_size(size: u64) -> (r: u64)
    requires
        size <= 0xffff_ffff,
    ensures
        r == rounded(size as nat),
{
    size + size % 2
}

fn find_frame(b: &[u8], from: u64) -> (r: Option<usize>)
    ensures
        match r {
            Some(frame) => first_frame(b@, from as int) == Some(frame as int) && 8 <= frame
                <= b@.len(),
            None => first_frame(b@, from as int) is None,
        },
{
    let n: usize = b.len();
    if from > n as u64 {
        return None;
    }
    let mut at: usize = from as usize;
    while n - at >= 8
        invariant
            n == b@.len(),
            at <= n,
            first_frame(b@, from as int) == first_frame(b@, at as int),
        decreases n - at,
    {
        if number_at(b, at, 4) == ANMF as u64 {
            return Some(at + 8);
        }
        let step: u64 = 8 + rounded_size(number_at(b, at + 4, 4));
        if step > (n - at) as u64 {
            return None;
        }
        at = at + step as usize;
    }
    None
}

/// Whether a file is an animated WebP whose first frame has an alpha chunk and a
/// picture of another size than the frame.
pub fn has_uneven_frame(b: &[u8]) -> (r: bool)
    ensures
        r == uneven_frame(b@),
{
    let n: usize = b.len();
    if n <= 20 || number_at(b, 0, 4) != RIFF as u64 || number_at(b, 8, 4) != WEBP as u64
        || number_at(b, 12, 4) != VP8X as u64 || (b[20] / 2) % 2 != 1 {
        return false;
    }
    let first: u64 = 20 + rounded_size(number_at(b, 16, 4));
    let frame: usize = match find_frame(b, first) {
        Some(frame) => frame,
        None => {
            return false;
        },
    };
    if n - frame < 24 || number_at(b, frame + 16, 4) != ALPH as u64 {
        return false;
    }
    let skipped: u64 = 32 + rounded_size(number_at(b, frame + 20, 4));
    if skipped + 10 > (n - frame) as u64 {
        return false;
    }
    let picture: usize = frame + skipped as usize;
    !(number_at(b, picture + 6, 2) % 0x4000 == number_at(b, frame + 6, 3) + 1 && number_at(
        b,
        picture + 8,
        2,
    ) % 0x4000 == number_at(b, frame + 9, 3) + 1)
}

/// Only an animated WebP file is ever uneven: `RIFF`, any four bytes, `WEBP`, `VP8X`,
/// and the animation flag. Every other file is left to the decoder.
pub proof fn law_only_animations_are_uneven(b: Seq<u8>)
    requires
        uneven_frame(b),
    ensures
        b.len() > 20,
        b.subrange(0, 4) == seq![0x52u8, 0x49, 0x46, 0x46],
        b.subrange(8, 16) == seq![0x57u8, 0x45, 0x42, 0x50, 0x56, 0x50, 0x38, 0x58],
        (b[20] / 2) % 2 == 1,
{
    reveal_with_fuel(little_endian, 5);
    lemma_four_bytes(b, 0, RIFF);
    lemma_four_bytes(b, 8, WEBP);
    lemma_four_bytes(b, 12, VP8X);
    assert(b.subrange(0, 4) =~= seq![0x52u8, 0x49, 0x46, 0x46]);
    assert(b.subrange(8, 16) =~= seq![0x57u8, 0x45, 0x42, 0x50, 0x56, 0x50, 0x38, 0x58]);
}

proof fn lemma_four_bytes(b: Seq<u8>, at: int, tag: u32)
    requires
        little_endian(b, at, 4) == tag,
    ensures
        b[at] == tag % 0x100,
        b[at + 1] == (tag / 0x100) % 0x100,
        b[at + 2] == (tag / 0x1_0000) % 0x100,
        b[at + 3] == tag / 0x100_0000,
{
    reveal_with_fuel(little_endian, 5);
}

/// A frame whose alpha stands before a picture of the frame's own size is even, and
/// so is one that does not begin with alpha. A frame's sides are written less one in
/// three bytes, a picture's in the lower fourteen bits of two.
pub proof fn law_frames_of_one_size_are_even(b: Seq<u8>, frame: int)
    ensures
        ({
            let skipped = b[frame + 20] + 0x100 * b[frame + 21] + 0x1_0000 * b[frame + 22]
                + 0x100_0000 * b[frame + 23];
            let picture = frame + 32 + skipped + skipped % 2;
            (b[picture + 6] + 0x100 * b[picture + 7]) % 0x4000 == b[frame + 6] + 0x100 * b[frame + 7]
                + 0x1_0000 * b[frame + 8] + 1 && (b[picture + 8] + 0x100 * b[picture + 9]) % 0x4000
                == b[frame + 9] + 0x100 * b[frame + 10] + 0x1_0000 * b[frame + 11] + 1
                ==> !uneven_at(b, frame)
        }),
        b[frame + 16] != 0x41 || b[frame + 17] != 0x4c || b[frame + 18] != 0x50 || b[frame + 19]
            != 0x48 ==> !uneven_at(b, frame),
{
    reveal_with_fuel(little_endian, 5);
    if uneven_at(b, frame) {
        lemma_four_bytes(b, frame + 16, ALPH);
    }
}

} // verus!
