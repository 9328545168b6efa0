# vp8_decoder_rs

A VP8 video decoder. The library under `src/` is verified with Verus: what a packet makes of the
decoder, its frame buffers and the pictures it gives is stated as a mathematical function of the
packet and the state before, and proved of the code. There are no trusted items.

## Layout

From the bits upwards:

- `dboolhuff`, `treereader`, `treecoder`, `prob`: the arithmetic decoder, and trees of symbols.
- `tables`, `entropy`, `entropymode`, `coefheader`: probabilities, their defaults and updates.
- `frametag`, `frameheader`, `partitions`, `fragments`: the headers of a frame and its parts.
- `intramode`, `findnearmv`, `mvread`, `splitmv`, `mbmodes`, `decodemv`: the modes and the vectors
  of macroblocks.
- `detokenize`, `quant_common`, `dequantizer`, `dequantize`, `idctllm`, `idct_blk`: coefficients and
  residuals.
- `setupintrarecon`, `intrapred`, `intrapred4x4`, `reconintra`, `reconintra4x4`: prediction from the
  same frame.
- `filter`, `reconinter`: prediction from other frames.
- `loopfilter_filters`, `vp8_loopfilter`: the loop filter.
- `extend`, `framelines`: the border of a frame, and which lines each step changes.
- `macroblock`, `mbrows`, `framerows`, `decodeframe`: a macroblock, its row, and the whole frame.
- `keyframes`: what the decoding of a key frame does not depend on.
- `alloccommon`, `yv12config`, `swapyv12buffer`, `framebufs`, `newdecoder`, `onyxd_if`: frame
  buffers, references and the decoder's state.
- `vp8_dx_iface`, `vp8_decoder`, `codec`: the stream interface.
- `api`, `published`, `video_decoder`: packets in, pictures out.
- `ivf`: the container of test streams.

`grid` has the rectangles that planes and modes are kept in; `types` has the data types.

Functions named `law_..` are proved statements about the library as a whole, such as that the border
of every decoded frame repeats its edges (`framelines::law_decoded_border`), that a key frame is
decoded without the frames before it (`keyframes::law_key_frame_alone`), that three reference frames
leave a frame buffer free (`framebufs::law_free_buffer`), that a reference that was set is read back
(`video_decoder::law_set_then_copy`), or that nothing decoded before a discard is copied out or
predicted from afterwards (`video_decoder::law_discarded_not_copied` and
`video_decoder::law_discarded_until_key_frame`).

`app/` is ordinary Rust around the library: callbacks, allocators, files. `tests/` runs the library
on streams made on the spot.
