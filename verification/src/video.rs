//! Raw video frames: their size and the conversions of rgb24 pixels into
//! the buffers that the preview windows draw.
use vstd::prelude::*;

verus! {

/// The size in pixels of the frames that a video is decoded to.
#[derive(Clone, Copy, Debug)]
pub struct FrameSize {
    pub w: usize,
    pub h: usize,
}

impl FrameSize {
    /// The number of bytes of one rgb24 frame: 3 per pixel.
    pub fn frame_bytes(&self) -> (r: usize)
        requires
            self.w * self.h * 3 <= usize::MAX,
        ensures
            r == self.w * self.h * 3,
    {
        assert(self.w * self.h <= self.w * self.h * 3) by (nonlinear_arith);
        self.w * self.h * 3
    }
}

/// The 0RGB value of a pixel: red in bits 16..24, green in 8..16, blue in 0..8.
pub open spec fn pixel_value(r: u8, g: u8, b: u8) -> int {
    r * 65536 + g * 256 + b
}

/// Packs a pixel into a 0RGB word.
pub fn pack_pixel(r: u8, g: u8, b: u8) -> (v: u32)
    ensures
        v == pixel_value(r, g, b),
{
    let x = r as u32;
    let y = g as u32;
    let z = b as u32;
    assert((x << 16u32) | (y << 8u32) | z == x * 65536 + y * 256 + z) by (bit_vector)
        requires
            x < 256,
            y < 256,
            z < 256,
    ;
    (x << 16) | (y << 8) | z
}

/// Converts the first `pixels` pixels of an rgb24 frame into 0RGB words,
/// one per pixel.
pub fn rgb_to_buffer(rgb: &Vec<u8>, pixels: usize) -> (buf: Vec<u32>)
    requires
        3 * pixels <= rgb.len(),
    ensures
        buf.len() == pixels,
        forall|i: int|
            0 <= i < pixels ==> #[trigger] buf[i] == pixel_value(rgb[3 * i], rgb[3 * i + 1], rgb[3 * i + 2]),
{
    let mut buf: Vec<u32> = Vec::new();
    let mut i: usize = 0;
    while i < pixels
        invariant
            3 * pixels <= rgb.len(),
            i <= pixels,
            buf.len() == i,
            forall|j: int|
                0 <= j < i ==> #[trigger] buf[j] == pixel_value(rgb[3 * j], rgb[3 * j + 1], rgb[3 * j + 2]),
        decreases pixels - i,
    {
        let v = pack_pixel(rgb[3 * i], rgb[3 * i + 1], rgb[3 * i + 2]);
        buf.push(v);
        i = i + 1;
    }
    buf
}

/// Expands rgb24 pixels into rgba with full opacity; a trailing incomplete
/// pixel is dropped.
pub fn rgb_to_rgba(rgb: &Vec<u8>) -> (out: Vec<u8>)
    ensures
        out.len() == (rgb.len() / 3) * 4,
        forall|i: int, k: int|
            0 <= i < rgb.len() / 3 && 0 <= k < 3 ==> #[trigger] out[4 * i + k] == rgb[3 * i + k],
        forall|i: int| 0 <= i < rgb.len() / 3 ==> #[trigger] out[4 * i + 3] == 255,
{
    let n = rgb.len() / 3;
    let mut out: Vec<u8> = Vec::new();
    let mut i: usize = 0;
    while i < n
        invariant
            n == rgb.len() / 3,
            i <= n,
            out.len() == 4 * i,
            forall|j: int, k: int|
                0 <= j < i && 0 <= k < 3 ==> #[trigger] out[4 * j + k] == rgb[3 * j + k],
            forall|j: int| 0 <= j < i ==> #[trigger] out[4 * j + 3] == 255,
        decreases n - i,
    {
        out.push(rgb[3 * i]);
        out.push(rgb[3 * i + 1]);
        out.push(rgb[3 * i + 2]);
        out.push(255);
        proof {
            assert forall|j: int, k: int| 0 <= j < i + 1 && 0 <= k < 3 implies #[trigger] out[4 * j + k]
                == rgb[3 * j + k] by {
                if j == i {
                    assert(4 * j + k == 4 * i + k);
                }
            }
        }
        i = i + 1;
    }
    out
}

/// One rgb24 frame being read from a decoder's output, a chunk at a time:
/// it is complete once exactly [`FrameSize::frame_bytes`] bytes are in.
pub struct FrameReader {
    bytes: Vec<u8>,
    want: usize,
}

impl FrameReader {
    /// The bytes read so far.
    pub closed spec fn got(&self) -> Seq<u8> {
        self.bytes@
    }

    /// The size of a whole frame.
    pub closed spec fn frame_len(&self) -> nat {
        self.want as nat
    }

    /// Never more than a frame is read.
    pub closed spec fn wf(&self) -> bool {
        self.bytes@.len() <= self.want
    }

    /// A frame of `size` with nothing read yet.
    pub fn new(size: &FrameSize) -> (r: Self)
        requires
            size.w * size.h * 3 <= usize::MAX,
        ensures
            r.wf(),
            r.got() == Seq::<u8>::empty(),
            r.frame_len() == size.w * size.h * 3,
    {
        FrameReader { bytes: Vec::new(), want: size.frame_bytes() }
    }

    /// How many bytes the frame still lacks.
    pub fn missing(&self) -> (n: usize)
        requires
            self.wf(),
        ensures
            n == self.frame_len() - self.got().len(),
    {
        self.want - self.bytes.len()
    }

    /// `true` once the whole frame is in.
    pub fn is_complete(&self) -> (r: bool)
        requires
            self.wf(),
        ensures
            r == (self.got().len() == self.frame_len()),
    {
        self.bytes.len() == self.want
    }

    /// Takes in what one read gave: the bytes that the frame still lacks,
    /// from the start of `chunk`; the rest of `chunk` is not taken.
    pub fn add(&mut self, chunk: &[u8])
        requires
            old(self).wf(),
        ensures
            final(self).wf(),
            final(self).frame_len() == old(self).frame_len(),
            final(self).got() == old(self).got() + chunk@.take(
                if chunk@.len() <= old(self).frame_len() - old(self).got().len() {
                    chunk@.len() as int
                } else {
                    old(self).frame_len() - old(self).got().len()
                },
            ),
    {
        let room = self.want - self.bytes.len();
        let n = if chunk.len() <= room { chunk.len() } else { room };
        let ghost start = self.bytes@;
        let mut i: usize = 0;
        while i < n
            invariant
                n <= chunk.len(),
                self.want == old(self).want,
                start == old(self).bytes@,
                start.len() + n <= self.want,
                i <= n,
                self.bytes@ == start + chunk@.take(i as int),
            decreases n - i,
        {
            self.bytes.push(chunk[i]);
            assert(chunk@.take(i + 1) =~= chunk@.take(i as int).push(chunk@[i as int]));
            i = i + 1;
        }
    }

    /// The frame, once complete: exactly a frame's bytes; `None` before.
    pub fn into_frame(self) -> (r: Option<Vec<u8>>)
        requires
            self.wf(),
        ensures
            match r {
                Some(f) => f@ == self.got() && f@.len() == self.frame_len(),
                None => self.got().len() < self.frame_len(),
            },
    {
        if self.bytes.len() == self.want {
            Some(self.bytes)
        } else {
            None
        }
    }
}

} // verus!
