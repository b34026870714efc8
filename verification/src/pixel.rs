use vstd::prelude::*;

verus! {

/// Position in the source pixel data that the byte at position `j` of the
/// converted data comes from: within each 4-byte pixel the first and third
/// bytes change places (ARGB in memory order B,G,R,A becomes R,G,B,A).
pub open spec fn channel_source(j: int) -> int {
    if j % 4 == 0 {
        j + 2
    } else if j % 4 == 2 {
        j - 2
    } else {
        j
    }
}

/// `out` is `src` with red and blue exchanged in every pixel.
pub open spec fn is_rgba_of(src: Seq<u8>, out: Seq<u8>) -> bool {
    &&& out.len() == src.len()
    &&& forall|j: int| 0 <= j < src.len() ==> #[trigger] out[j] == src[channel_source(j)]
}

/// Converts shared-memory pixel data in the `Argb8888` layout (bytes B, G, R, A
/// for each pixel) into RGBA byte order (R, G, B, A), pixel by pixel.
///
/// The data must hold whole pixels: a trailing partial pixel has no red or
/// alpha byte to read.
pub fn argb_to_rgba(argb_color: &[u8]) -> (rgba_color: Vec<u8>)
    requires
        argb_color@.len() % 4 == 0,
    ensures
        is_rgba_of(argb_color@, rgba_color@),
{
    let n = argb_color.len();
    let mut rgba_color: Vec<u8> = Vec::with_capacity(n);
    let mut i: usize = 0;
    while i < n
        invariant
            n == argb_color@.len(),
            n % 4 == 0,
            i % 4 == 0,
            i <= n,
            rgba_color@.len() == i,
            forall|j: int| 0 <= j < i ==> #[trigger] rgba_color@[j] == argb_color@[channel_source(j)],
        decreases n - i,
    {
        rgba_color.push(argb_color[i + 2]);
        rgba_color.push(argb_color[i + 1]);
        rgba_color.push(argb_color[i]);
        rgba_color.push(argb_color[i + 3]);
        i = i + 4;
    }
    rgba_color
}

/// Converting twice gives back the input bytes: the exchange of the red
/// and blue channels undoes itself.
pub proof fn lemma_argb_to_rgba_involution(src: Seq<u8>, mid: Seq<u8>, out: Seq<u8>)
    requires
        src.len() % 4 == 0,
        is_rgba_of(src, mid),
        is_rgba_of(mid, out),
    ensures
        out == src,
{
    assert forall|j: int| 0 <= j < src.len() implies #[trigger] out[j] == src[j] by {
        assert(out[j] == mid[channel_source(j)]);
        assert(mid[channel_source(j)] == src[channel_source(channel_source(j))]);
    }
    assert(out =~= src);
}

} // verus!
