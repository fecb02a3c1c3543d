# flatty

Flat message buffers: types whose values occupy one contiguous, aligned byte area, with a
fixed layout in that area, and operations proved against their contracts by Verus. A few calls
into std are taken on trust, each stated in the library with what it is relied on for:
`core::str::from_utf8` (with its error's `valid_up_to`), `<*const u8>::align_offset`, and the
native byte order conversions `to_ne_bytes` and `from_ne_bytes` of `u16`, `u32` and `u64`.

- `src/` is the verified library: the flat type traits (`traits`), primitives and portable
  integers and floating-point numbers, `FlatVec` (sized items), `FlexVec` (items of varying
  size chained by links), `FlatString`, lists of types laid out in memory (`iter`), memory
  helpers (`mem`), owners of bytes paired with flat values (`wrap`), and the buffering and
  decisions of message channels (`channel`).
- `app/` holds what the verifier does not cover: readers and writers over blocking and
  asynchronous streams, and conversions of portable floating-point numbers to native ones.
- `tests/` exercises the library on concrete values.

Values are owned: initializing writes the caller's memory, as in place, but the flat value
then holds a copy of the bytes it was made from, and hands its bytes back with `as_bytes`,
where an unsafe implementation would reinterpret the caller's memory in place. The byte layout, the checks and the errors are
those of memory read in place; whether memory is aligned is still checked at its address.

