use vstd::prelude::*;

verus! {

/// The byte image that the lz4 frame format assigns to a payload.
/// The encoding depends on the payload bytes alone.
pub uninterp spec fn lz4_frame_of(data: Seq<u8>) -> Seq<u8>;

/// The payload that an lz4 frame decodes back to.
pub uninterp spec fn lz4_unframe_of(data: Seq<u8>) -> Seq<u8>;

/// Relies on lz4_flex::frame::FrameEncoder: writing a payload through
/// the encoder and finishing it appends one complete frame, a function
/// of the payload bytes alone, and decoding that frame restores them.
#[verifier::external_body]
fn lz4_compress(data: &[u8]) -> (r: Vec<u8>)
    ensures
        r@ == lz4_frame_of(data@),
        lz4_unframe_of(r@) == data@,
{
    let mut encoder = lz4_flex::frame::FrameEncoder::new(Vec::new());
    std::io::Write::write_all(&mut encoder, data).expect("writing to a byte buffer cannot fail");
    encoder.finish().expect("writing to a byte buffer cannot fail")
}

/// Relies on lz4_flex::frame::FrameDecoder: reading a well-formed frame
/// to its end yields the payload it was built from; a malformed input
/// reports an error instead.
#[verifier::external_body]
fn lz4_decompress(data: &[u8]) -> (r: Option<Vec<u8>>)
    ensures
        (exists|orig: Seq<u8>| data@ == lz4_frame_of(orig)) ==> r is Some,
        r matches Some(v) ==> v@ == lz4_unframe_of(data@),
{
    let mut decoder = lz4_flex::frame::FrameDecoder::new(data);
    let mut out = Vec::new();
    match std::io::Read::read_to_end(&mut decoder, &mut out) {
        Ok(_) => Some(out),
        Err(_) => None,
    }
}

/// The bytes that a codec appends to a sink for a given payload.
pub open spec fn encoded_by(codec: CompressionCodec, data: Seq<u8>) -> Seq<u8> {
    match codec {
        CompressionCodec::NoCompression => data,
        CompressionCodec::Lz4Flex => lz4_frame_of(data),
    }
}

/// The streaming transform applied to tape payloads.
#[derive(Clone, Copy)]
pub enum CompressionCodec {
    NoCompression,
    Lz4Flex,
}

impl CompressionCodec {
    /// Writes the payload to the sink, wrapped in a frame when
    /// compression is chosen.
    pub fn write_all(self, writer: &mut Vec<u8>, data: &[u8])
        ensures
            final(writer)@ == old(writer)@ + encoded_by(self, data@),
    {
        match self {
            CompressionCodec::NoCompression => {
                let mut i: usize = 0;
                while i < data.len()
                    invariant
                        i <= data@.len(),
                        writer@ == old(writer)@ + data@.take(i as int),
                    decreases data@.len() - i,
                {
                    proof {
                        assert((old(writer)@ + data@.take(i as int)).push(data@[i as int])
                            =~= old(writer)@ + data@.take(i + 1));
                    }
                    let b = data[i];
                    writer.push(b);
                    i = i + 1;
                }
                proof {
                    assert(data@.take(data@.len() as int) =~= data@);
                }
            },
            CompressionCodec::Lz4Flex => {
                let encoded = lz4_compress(data);
                let mut tail = encoded;
                let mut rev = crate::run::reverse_vec(tail);
                let ghost enc = lz4_frame_of(data@);
                while rev.len() > 0
                    invariant
                        writer@ + rev@.reverse() == old(writer)@ + enc,
                    decreases rev@.len(),
                {
                    proof {
                        let r = rev@;
                        assert(r.drop_last().reverse() =~= r.reverse().drop_first());
                        assert(writer@.push(r.reverse()[0]) + r.reverse().drop_first()
                            =~= writer@ + r.reverse());
                        assert(r.reverse()[0] == r.last());
                    }
                    let b = rev.pop().unwrap();
                    writer.push(b);
                }
                proof {
                    assert(rev@.reverse() =~= Seq::<u8>::empty());
                    assert(writer@ + Seq::<u8>::empty() =~= writer@);
                }
            },
        }
    }

    /// Decodes a payload read back from a tape: the identity for the
    /// plain codec, frame decoding otherwise. Returns None only for
    /// bytes that are not a well-formed frame.
    pub fn decode_all(self, data: Vec<u8>) -> (r: Option<Vec<u8>>)
        ensures
            (exists|orig: Seq<u8>| data@ == encoded_by(self, orig)) ==> r is Some,
            r matches Some(v) ==> data@ == encoded_by(self, v@) || (self is Lz4Flex && v@
                == lz4_unframe_of(data@)),
    {
        match self {
            CompressionCodec::NoCompression => Some(data),
            CompressionCodec::Lz4Flex => lz4_decompress(data.as_slice()),
        }
    }
}

} // verus!
