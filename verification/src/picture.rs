//! Picture lumps: a small header, a table of column offsets, and for each
//! column a list of posts, each a run of pixels with the row it starts at.

use vstd::prelude::*;
use crate::cursor::{le_i16, le_u16, le_u32, ByteCursor};
use crate::directory::LumpRecord;
use crate::error::WadError;
use crate::image::{
    lemma_pixel_index_column_row, lemma_pixel_index_in_range, lemma_pixel_index_injective,
    lemma_pixel_index_onto, pixel_index, DecodedImage, Image,
};
use crate::palette::TRANSPARENT;
use crate::usage::ColorUsage;

verus! {

/// The value of a post's first byte that ends a column.
pub const END_OF_COLUMN: u8 = 255;

/// What a picture lump begins with.
#[derive(Debug, PartialEq, Eq)]
pub struct PictureHeader {
    /// The number of columns.
    pub width: u16,
    /// The number of rows.
    pub height: u16,
    /// The horizontal origin. The decoder does not use it.
    pub left_offset: i16,
    /// The vertical origin. The decoder does not use it.
    pub top_offset: i16,
    /// For each column, where its posts begin, counted from the start of
    /// the lump.
    pub column_offsets: Vec<u32>,
}

/// The width that the picture at `base` announces.
pub open spec fn picture_width(bytes: Seq<u8>, base: int) -> int {
    le_u16(bytes, base)
}

/// The height that the picture at `base` announces.
pub open spec fn picture_height(bytes: Seq<u8>, base: int) -> int {
    le_u16(bytes, base + 2)
}

/// Where the posts of column `x` of the picture at `base` begin.
pub open spec fn column_start(bytes: Seq<u8>, base: int, x: int) -> int {
    base + le_u32(bytes, base + 8 + 4 * x)
}

/// What is wrong with the header and the offset table of the picture at
/// `base`, if anything.
pub open spec fn picture_header_fault(bytes: Seq<u8>, base: int) -> Option<WadError> {
    if base > bytes.len() {
        Some(WadError::OutOfRange)
    } else if base + 8 > bytes.len() || base + 8 + 4 * picture_width(bytes, base) > bytes.len() {
        Some(WadError::Truncated)
    } else {
        None
    }
}

/// Reads the header of the picture at `base`, with its offset table.
pub fn read_picture_header(bytes: &[u8], base: u32) -> (r: Result<PictureHeader, WadError>)
    ensures
        match r {
            Ok(h) => {
                &&& picture_header_fault(bytes@, base as int) is None
                &&& h.width == picture_width(bytes@, base as int)
                &&& h.height == picture_height(bytes@, base as int)
                &&& h.left_offset == le_i16(bytes@, base + 4)
                &&& h.top_offset == le_i16(bytes@, base + 6)
                &&& h.column_offsets@.len() == h.width
                &&& forall|x: int|
                    0 <= x < h.width ==> base + #[trigger] h.column_offsets@[x] == column_start(
                        bytes@,
                        base as int,
                        x,
                    )
            },
            Err(e) => picture_header_fault(bytes@, base as int) == Some(e),
        },
{
    let mut c = ByteCursor::new(bytes);
    c.seek(base as u64)?;
    let width: u16 = c.read_u16()?;
    let height: u16 = c.read_u16()?;
    let left_offset: i16 = c.read_i16()?;
    let top_offset: i16 = c.read_i16()?;
    let mut column_offsets: Vec<u32> = Vec::new();
    let mut x: u16 = 0;
    while x < width
        invariant
            0 <= x <= width,
            picture_header_fault(bytes@, base as int) != Some(WadError::OutOfRange),
            width == picture_width(bytes@, base as int),
            height == picture_height(bytes@, base as int),
            left_offset == le_i16(bytes@, base + 4),
            top_offset == le_i16(bytes@, base + 6),
            c.data() == bytes@,
            c.position() == base + 8 + 4 * x,
            base + 8 + 4 * x <= bytes@.len(),
            column_offsets@.len() == x,
            forall|k: int|
                0 <= k < x ==> base + #[trigger] column_offsets@[k] == column_start(
                    bytes@,
                    base as int,
                    k,
                ),
        decreases width - x,
    {
        let offset: u32 = c.read_u32()?;
        column_offsets.push(offset);
        x = x + 1;
    }
    Ok(PictureHeader { width, height, left_offset, top_offset, column_offsets })
}

/// A run of pixels of one column: the row of the first pixel, and the
/// palette indices from that row down.
pub struct Post {
    pub top: int,
    pub pixels: Seq<u8>,
}

impl Post {
    /// The post holds a pixel for row `y`.
    pub open spec fn covers(self, y: int) -> bool {
        self.top <= y < self.top + self.pixels.len()
    }

    /// Every row that the post covers is a row of a picture of `height`
    /// rows.
    pub open spec fn within_rows(self, height: int) -> bool {
        forall|y: int| self.covers(y) ==> 0 <= y < height
    }
}

/// The post whose first byte stands at `at`: the row of its first pixel,
/// its length, a byte that is skipped, and then its pixels.
pub open spec fn post_at(bytes: Seq<u8>, at: int) -> Post {
    Post { top: bytes[at] as int, pixels: bytes.subrange(at + 3, at + 3 + bytes[at + 1]) }
}

/// `v`, or zero where `v` is negative.
pub open spec fn at_least_zero(v: int) -> int {
    if v < 0 {
        0
    } else {
        v
    }
}

/// What is wrong with the post at `at` in a picture of `height` rows, if
/// anything. `readable` is how many of its pixels the archive holds, and
/// `room` how many rows lie from its first row to the last row of the
/// picture. The pixels are read one by one, each written before the next
/// is read, and the byte after the last pixel is read at the end. So the
/// post is cut short where the archive ends no later than the rows do, and
/// before the byte after the last pixel; it is out of range where the rows
/// end first, and before the last pixel.
pub open spec fn post_fault(bytes: Seq<u8>, at: int, height: int) -> Option<WadError> {
    let length = bytes[at + 1] as int;
    let readable = at_least_zero(bytes.len() - (at + 3));
    let room = at_least_zero(height - bytes[at]);
    if readable <= room && readable <= length {
        Some(WadError::Truncated)
    } else if room < length {
        Some(WadError::OutOfRange)
    } else {
        None
    }
}

/// What is wrong with the posts of the column that begins at `at`, if
/// anything: the first fault met on the way to the end of the column. The
/// end of a column is read as a post is, by its two leading bytes, of
/// which the first is 255.
pub open spec fn column_fault(bytes: Seq<u8>, at: int, height: int) -> Option<WadError>
    decreases bytes.len() - at,
{
    if at < 0 || at + 2 > bytes.len() {
        Some(WadError::Truncated)
    } else if bytes[at] == END_OF_COLUMN {
        None
    } else if post_fault(bytes, at, height) is Some {
        post_fault(bytes, at, height)
    } else {
        column_fault(bytes, at + 4 + bytes[at + 1], height)
    }
}

/// The posts of the column that begins at `at`, up to the end of the
/// column or to the first fault.
pub open spec fn column_posts(bytes: Seq<u8>, at: int, height: int) -> Seq<Post>
    decreases bytes.len() - at,
{
    if at < 0 || at + 2 > bytes.len() || bytes[at] == END_OF_COLUMN || post_fault(
        bytes,
        at,
        height,
    ) is Some {
        Seq::empty()
    } else {
        seq![post_at(bytes, at)] + column_posts(bytes, at + 4 + bytes[at + 1], height)
    }
}

/// The palette index that `posts` leave at row `y`: that of the last post
/// that covers the row, and the transparent index where none does.
pub open spec fn paint(posts: Seq<Post>, y: int) -> u8
    decreases posts.len(),
{
    if posts.len() == 0 {
        TRANSPARENT
    } else if posts.last().covers(y) {
        posts.last().pixels[y - posts.last().top]
    } else {
        paint(posts.drop_last(), y)
    }
}

/// The palette indices that occur in `posts`.
pub open spec fn posts_colors(posts: Seq<Post>) -> Set<u8>
    decreases posts.len(),
{
    if posts.len() == 0 {
        Set::empty()
    } else {
        posts_colors(posts.drop_last()).union(posts.last().pixels.to_set())
    }
}

/// Column `x` of the buffer shows what `posts` paint.
pub open spec fn column_is(pixels: Seq<u8>, x: int, width: int, height: int, posts: Seq<Post>) -> bool {
    forall|y: int| 0 <= y < height ==> #[trigger] pixels[pixel_index(x, y, width)] == paint(posts, y)
}

/// The two buffers agree in every column but `x`.
pub open spec fn same_outside_column(a: Seq<u8>, b: Seq<u8>, x: int, width: int, height: int) -> bool {
    forall|x2: int, y: int|
        0 <= x2 < width && x2 != x && 0 <= y < height ==> #[trigger] a[pixel_index(x2, y, width)]
            == b[pixel_index(x2, y, width)]
}

/// Reads the pixels of the post whose two leading bytes, `top` and
/// `length`, the cursor has just passed, and writes them into column `x`.
fn decode_post(
    c: &mut ByteCursor<'_>,
    top: u8,
    length: u8,
    x: usize,
    width: usize,
    height: usize,
    pixels: &mut Vec<u8>,
    seen: &mut ColorUsage,
) -> (r: Result<(), WadError>)
    requires
        old(c).position() >= 2,
        top == old(c).data()[old(c).position() - 2],
        length == old(c).data()[old(c).position() - 1],
        x < width,
        old(pixels)@.len() == width * height,
    ensures
        final(c).data() == old(c).data(),
        final(pixels)@.len() == old(pixels)@.len(),
        match r {
            Ok(()) => {
                let post = post_at(old(c).data(), old(c).position() - 2);
                &&& post_fault(old(c).data(), old(c).position() - 2, height as int) is None
                &&& final(c).position() == old(c).position() + 2 + length
                &&& forall|y: int|
                    0 <= y < height ==> #[trigger] final(pixels)@[pixel_index(
                        x as int,
                        y,
                        width as int,
                    )] == if post.covers(y) {
                        post.pixels[y - post.top]
                    } else {
                        old(pixels)@[pixel_index(x as int, y, width as int)]
                    }
                &&& same_outside_column(
                    final(pixels)@,
                    old(pixels)@,
                    x as int,
                    width as int,
                    height as int,
                )
                &&& final(seen)@ == old(seen)@.union(post.pixels.to_set())
            },
            Err(e) => post_fault(old(c).data(), old(c).position() - 2, height as int) == Some(e),
        },
{
    let ghost bytes = c.data();
    let ghost at = c.position() - 2;
    let ghost before = pixels@;
    c.read_u8()?;
    let mut dy: u8 = 0;
    while dy < length
        invariant
            0 <= dy <= length,
            x < width,
            at >= 0,
            bytes == old(c).data(),
            at == old(c).position() - 2,
            before == old(pixels)@,
            top == bytes[at],
            length == bytes[at + 1],
            c.data() == bytes,
            c.position() == at + 3 + dy,
            at + 3 + dy <= bytes.len(),
            top + dy <= height || dy == 0,
            pixels@.len() == width * height,
            before.len() == width * height,
            forall|y: int|
                0 <= y < height ==> #[trigger] pixels@[pixel_index(x as int, y, width as int)]
                    == if top <= y < top + dy {
                    bytes[at + 3 + y - top]
                } else {
                    before[pixel_index(x as int, y, width as int)]
                },
            same_outside_column(pixels@, before, x as int, width as int, height as int),
            seen@ == old(seen)@.union(bytes.subrange(at + 3, at + 3 + dy).to_set()),
        decreases length - dy,
    {
        let px: u8 = c.read_u8()?;
        seen.mark(px);
        let y: usize = top as usize + dy as usize;
        if y >= height {
            return Err(WadError::OutOfRange);
        }
        proof {
            lemma_pixel_index_in_range(x as int, y as int, width as int, height as int);
            assert(0 <= y * width) by (nonlinear_arith);
            assert(pixels.len() <= usize::MAX);
        }
        let row: usize = y * width;
        pixels[x + row] = px;
        proof {
            let done = bytes.subrange(at + 3, at + 3 + dy);
            assert(bytes.subrange(at + 3, at + 3 + dy + 1) =~= done.push(px));
            done.lemma_push_to_set_commute(px);
            assert forall|y2: int| 0 <= y2 < height implies #[trigger] pixels@[pixel_index(
                x as int,
                y2,
                width as int,
            )] == if top <= y2 < top + dy + 1 {
                bytes[at + 3 + y2 - top]
            } else {
                before[pixel_index(x as int, y2, width as int)]
            } by {
                lemma_pixel_index_in_range(x as int, y2, width as int, height as int);
                if y2 != y {
                    if pixel_index(x as int, y2, width as int) == pixel_index(
                        x as int,
                        y as int,
                        width as int,
                    ) {
                        lemma_pixel_index_injective(
                            x as int,
                            y2,
                            x as int,
                            y as int,
                            width as int,
                        );
                    }
                }
            }
            assert forall|x2: int, y2: int|
                0 <= x2 < width && x2 != x && 0 <= y2 < height implies #[trigger] pixels@[pixel_index(
                x2,
                y2,
                width as int,
            )] == before[pixel_index(x2, y2, width as int)] by {
                lemma_pixel_index_in_range(x2, y2, width as int, height as int);
                if pixel_index(x2, y2, width as int) == pixel_index(
                    x as int,
                    y as int,
                    width as int,
                ) {
                    lemma_pixel_index_injective(x2, y2, x as int, y as int, width as int);
                }
            }
        }
        dy = dy + 1;
    }
    c.read_u8()?;
    Ok(())
}

/// Reads the posts of the column at which the cursor stands and writes
/// them into column `x`, which is blank.
fn decode_column(
    c: &mut ByteCursor<'_>,
    x: usize,
    width: usize,
    height: usize,
    pixels: &mut Vec<u8>,
    seen: &mut ColorUsage,
) -> (r: Result<(), WadError>)
    requires
        0 <= old(c).position() <= old(c).data().len(),
        x < width,
        old(pixels)@.len() == width * height,
        column_is(old(pixels)@, x as int, width as int, height as int, Seq::empty()),
    ensures
        final(c).data() == old(c).data(),
        final(pixels)@.len() == old(pixels)@.len(),
        match r {
            Ok(()) => {
                let posts = column_posts(old(c).data(), old(c).position(), height as int);
                &&& column_fault(old(c).data(), old(c).position(), height as int) is None
                &&& column_is(final(pixels)@, x as int, width as int, height as int, posts)
                &&& same_outside_column(
                    final(pixels)@,
                    old(pixels)@,
                    x as int,
                    width as int,
                    height as int,
                )
                &&& final(seen)@ == old(seen)@.union(posts_colors(posts))
            },
            Err(e) => column_fault(old(c).data(), old(c).position(), height as int) == Some(e),
        },
{
    let ghost bytes = c.data();
    let ghost start = c.position();
    let ghost before = pixels@;
    let ghost mut done: Seq<Post> = Seq::empty();
    loop
        invariant
            x < width,
            bytes == old(c).data(),
            start == old(c).position(),
            before == old(pixels)@,
            c.data() == bytes,
            0 <= c.position() <= bytes.len(),
            column_fault(bytes, start, height as int) == column_fault(
                bytes,
                c.position(),
                height as int,
            ),
            column_posts(bytes, start, height as int) == done + column_posts(
                bytes,
                c.position(),
                height as int,
            ),
            pixels@.len() == width * height,
            before.len() == width * height,
            column_is(pixels@, x as int, width as int, height as int, done),
            same_outside_column(pixels@, before, x as int, width as int, height as int),
            seen@ == old(seen)@.union(posts_colors(done)),
        decreases bytes.len() - c.position(),
    {
        let ghost at = c.position();
        let top: u8 = c.read_u8()?;
        let length: u8 = c.read_u8()?;
        if top == END_OF_COLUMN {
            return Ok(());
        }
        decode_post(c, top, length, x, width, height, pixels, seen)?;
        proof {
            let post = post_at(bytes, at);
            assert(done.push(post).drop_last() =~= done);
            assert(seen@ =~= old(seen)@.union(posts_colors(done.push(post))));
            done = done.push(post);
        }
    }
}

/// What is wrong with column `x` of the picture at `base`, if anything.
pub open spec fn column_fault_at(bytes: Seq<u8>, base: int, x: int) -> Option<WadError> {
    if column_start(bytes, base, x) > bytes.len() {
        Some(WadError::OutOfRange)
    } else {
        column_fault(bytes, column_start(bytes, base, x), picture_height(bytes, base))
    }
}

/// The fault of the first column at or after `from` that has one.
pub open spec fn columns_fault(bytes: Seq<u8>, base: int, from: int) -> Option<WadError>
    decreases picture_width(bytes, base) - from,
{
    if from >= picture_width(bytes, base) {
        None
    } else if column_fault_at(bytes, base, from) is Some {
        column_fault_at(bytes, base, from)
    } else {
        columns_fault(bytes, base, from + 1)
    }
}

/// What is wrong with the picture at `base`, if anything. The header and
/// the offset table are read first, then the columns from left to right.
pub open spec fn picture_fault(bytes: Seq<u8>, base: int) -> Option<WadError> {
    if picture_header_fault(bytes, base) is Some {
        picture_header_fault(bytes, base)
    } else {
        columns_fault(bytes, base, 0)
    }
}

/// The posts of column `x` of the picture at `base`.
pub open spec fn picture_posts(bytes: Seq<u8>, base: int, x: int) -> Seq<Post> {
    column_posts(bytes, column_start(bytes, base, x), picture_height(bytes, base))
}

/// The picture at `base`: each pixel is what the posts of its column
/// paint at its row.
pub open spec fn picture_of(bytes: Seq<u8>, base: int) -> Image {
    let width = picture_width(bytes, base);
    let height = picture_height(bytes, base);
    Image {
        width,
        height,
        pixels: Seq::new(
            (width * height) as nat,
            |i: int| paint(picture_posts(bytes, base, i % width), i / width),
        ),
    }
}

/// The palette indices that occur in the posts of the columns before
/// `upto` of the picture at `base`.
pub open spec fn columns_colors(bytes: Seq<u8>, base: int, upto: int) -> Set<u8>
    decreases upto,
{
    if upto <= 0 {
        Set::empty()
    } else {
        columns_colors(bytes, base, upto - 1).union(
            posts_colors(picture_posts(bytes, base, upto - 1)),
        )
    }
}

/// The palette indices that occur in the posts of the picture at `base`.
pub open spec fn picture_colors(bytes: Seq<u8>, base: int) -> Set<u8> {
    columns_colors(bytes, base, picture_width(bytes, base))
}

/// Decodes the picture that `lump` holds and adds the palette indices of
/// its posts to `usage`. Where the picture is refused, `usage` is left as
/// it was.
pub fn decode_picture(bytes: &[u8], lump: &LumpRecord, usage: &mut ColorUsage) -> (r: Result<
    DecodedImage,
    WadError,
>)
    ensures
        match r {
            Ok(image) => {
                &&& picture_fault(bytes@, lump.offset as int) is None
                &&& image@ == picture_of(bytes@, lump.offset as int)
                &&& final(usage)@ == old(usage)@.union(picture_colors(bytes@, lump.offset as int))
            },
            Err(e) => picture_fault(bytes@, lump.offset as int) == Some(e) && final(usage)@ == old(
                usage,
            )@,
        },
{
    let ghost base = lump.offset as int;
    let header: PictureHeader = read_picture_header(bytes, lump.offset)?;
    let width: usize = header.width as usize;
    let height: usize = header.height as usize;
    assert(width * height <= 65535 * 65535) by (nonlinear_arith)
        requires
            width <= 65535,
            height <= 65535,
    ;
    let mut pixels: Vec<u8> = vec![TRANSPARENT; width * height];
    let mut seen: ColorUsage = ColorUsage::new();
    let mut c = ByteCursor::new(bytes);
    let mut x: usize = 0;
    proof {
        assert forall|x2: int| 0 <= x2 < width implies column_is(
            pixels@,
            x2,
            width as int,
            height as int,
            Seq::empty(),
        ) by {
            assert forall|y: int| 0 <= y < height implies #[trigger] pixels@[pixel_index(
                x2,
                y,
                width as int,
            )] == paint(Seq::empty(), y) by {
                lemma_pixel_index_in_range(x2, y, width as int, height as int);
            }
        }
    }
    while x < width
        invariant
            0 <= x <= width,
            base == lump.offset as int,
            picture_header_fault(bytes@, base) is None,
            width == picture_width(bytes@, base),
            height == picture_height(bytes@, base),
            header.column_offsets@.len() == width,
            forall|k: int|
                0 <= k < width ==> base + #[trigger] header.column_offsets@[k] == column_start(
                    bytes@,
                    base,
                    k,
                ),
            c.data() == bytes@,
            pixels@.len() == width * height,
            columns_fault(bytes@, base, 0) == columns_fault(bytes@, base, x as int),
            forall|x2: int|
                0 <= x2 < x ==> column_is(
                    pixels@,
                    x2,
                    width as int,
                    height as int,
                    #[trigger] picture_posts(bytes@, base, x2),
                ),
            forall|x2: int|
                x <= x2 < width ==> #[trigger] column_is(
                    pixels@,
                    x2,
                    width as int,
                    height as int,
                    Seq::empty(),
                ),
            seen@ == columns_colors(bytes@, base, x as int),
        decreases width - x,
    {
        let ghost earlier = pixels@;
        c.seek(lump.offset as u64 + header.column_offsets[x] as u64)?;
        decode_column(&mut c, x, width, height, &mut pixels, &mut seen)?;
        proof {
            assert forall|x2: int| x + 1 <= x2 < width implies #[trigger] column_is(
                pixels@,
                x2,
                width as int,
                height as int,
                Seq::empty(),
            ) by {
                assert(column_is(earlier, x2, width as int, height as int, Seq::empty()));
            }
        }
        x = x + 1;
    }
    proof {
        let picture = picture_of(bytes@, base);
        assert forall|i: int| 0 <= i < width * height implies pixels@[i] == picture.pixels[i] by {
            lemma_pixel_index_onto(i, width as int, height as int);
        }
        assert(pixels@ =~= picture.pixels);
    }
    usage.merge(&seen);
    Ok(DecodedImage::assemble(header.width as u32, header.height as u32, pixels))
}

/// A row that no post covers is left transparent.
pub proof fn lemma_paint_uncovered(posts: Seq<Post>, y: int)
    requires
        forall|k: int| 0 <= k < posts.len() ==> !posts[k].covers(y),
    ensures
        paint(posts, y) == TRANSPARENT,
    decreases posts.len(),
{
    if posts.len() > 0 {
        let rest = posts.drop_last();
        assert forall|k: int| 0 <= k < rest.len() implies !rest[k].covers(y) by {
            assert(rest[k] == posts[k]);
        }
        lemma_paint_uncovered(rest, y);
    }
}

/// A row shows the pixel of the last post that covers it.
pub proof fn lemma_paint_covered(posts: Seq<Post>, y: int, k: int)
    requires
        0 <= k < posts.len(),
        posts[k].covers(y),
        forall|l: int| k < l < posts.len() ==> !posts[l].covers(y),
    ensures
        paint(posts, y) == posts[k].pixels[y - posts[k].top],
    decreases posts.len(),
{
    if k < posts.len() - 1 {
        lemma_paint_covered(posts.drop_last(), y, k);
    }
}

/// Every post of a column covers rows of the picture only.
pub proof fn lemma_posts_within_rows(bytes: Seq<u8>, at: int, height: int)
    ensures
        forall|k: int|
            0 <= k < column_posts(bytes, at, height).len() ==> #[trigger] column_posts(
                bytes,
                at,
                height,
            )[k].within_rows(height),
    decreases bytes.len() - at,
{
    let posts = column_posts(bytes, at, height);
    if posts.len() > 0 {
        let next = at + 4 + bytes[at + 1];
        let rest = column_posts(bytes, next, height);
        lemma_posts_within_rows(bytes, next, height);
        assert forall|k: int| 0 <= k < posts.len() implies #[trigger] posts[k].within_rows(
            height,
        ) by {
            if k > 0 {
                assert(posts[k] == rest[k - 1]);
            }
        }
    }
}

/// What a decoded picture shows. The pixel at column `x`, row `y` is what
/// the posts of column `x` paint at row `y`; it is the transparent index
/// where no post covers the row; and no post covers a row outside the
/// picture.
pub proof fn lemma_picture_pixels(bytes: Seq<u8>, base: int, x: int, y: int)
    requires
        0 <= x < picture_width(bytes, base),
        0 <= y < picture_height(bytes, base),
    ensures
        picture_of(bytes, base).wf(),
        0 <= pixel_index(x, y, picture_width(bytes, base)) < picture_of(bytes, base).pixels.len(),
        picture_of(bytes, base).at(x, y) == paint(picture_posts(bytes, base, x), y),
        (forall|k: int|
            0 <= k < picture_posts(bytes, base, x).len() ==> !picture_posts(bytes, base, x)[k].covers(
                y,
            )) ==> picture_of(bytes, base).at(x, y) == TRANSPARENT,
        forall|k: int|
            0 <= k < picture_posts(bytes, base, x).len() ==> #[trigger] picture_posts(
                bytes,
                base,
                x,
            )[k].within_rows(picture_height(bytes, base)),
{
    let width = picture_width(bytes, base);
    let height = picture_height(bytes, base);
    let posts = picture_posts(bytes, base, x);
    assert(0 <= width * height) by (nonlinear_arith)
        requires
            0 <= width,
            0 <= height,
    ;
    lemma_pixel_index_in_range(x, y, width, height);
    lemma_pixel_index_column_row(x, y, width);
    if forall|k: int| 0 <= k < posts.len() ==> !posts[k].covers(y) {
        lemma_paint_uncovered(posts, y);
    }
    lemma_posts_within_rows(bytes, column_start(bytes, base, x), height);
}

/// Decoding is a function of the archive and the lump: two pictures
/// decoded from the same bytes at the same offset are the same picture.
pub proof fn lemma_decoding_repeats(bytes: Seq<u8>, base: int, first: Image, second: Image)
    requires
        first == picture_of(bytes, base),
        second == picture_of(bytes, base),
    ensures
        first.width == second.width,
        first.height == second.height,
        first.pixels == second.pixels,
{
}

/// A palette index occurs in `posts` exactly where it is a pixel of one of
/// them.
pub proof fn lemma_posts_colors(posts: Seq<Post>, c: u8)
    ensures
        posts_colors(posts).contains(c) <==> exists|k: int, j: int|
            0 <= k < posts.len() && 0 <= j < posts[k].pixels.len() && #[trigger] posts[k].pixels[j]
                == c,
    decreases posts.len(),
{
    if posts.len() > 0 {
        let rest = posts.drop_last();
        lemma_posts_colors(rest, c);
        if exists|k: int, j: int|
            0 <= k < posts.len() && 0 <= j < posts[k].pixels.len() && #[trigger] posts[k].pixels[j]
                == c {
            let (k, j) = choose|k: int, j: int|
                0 <= k < posts.len() && 0 <= j < posts[k].pixels.len() && #[trigger] posts[k].pixels[j]
                    == c;
            if k < posts.len() - 1 {
                assert(rest[k].pixels[j] == c);
            }
        }
    }
}

/// A palette index occurs in the columns before `upto` exactly where it
/// occurs in the posts of one of them.
pub proof fn lemma_columns_colors(bytes: Seq<u8>, base: int, upto: int, c: u8)
    ensures
        columns_colors(bytes, base, upto).contains(c) <==> exists|x: int|
            0 <= x < upto && posts_colors(#[trigger] picture_posts(bytes, base, x)).contains(c),
    decreases upto,
{
    if upto > 0 {
        lemma_columns_colors(bytes, base, upto - 1, c);
    }
}

/// The fault of a picture whose header is good is that of its first
/// column that has one.
pub proof fn lemma_columns_fault(bytes: Seq<u8>, base: int, from: int)
    requires
        0 <= from,
    ensures
        columns_fault(bytes, base, from) is None <==> forall|x: int|
            from <= x < picture_width(bytes, base) ==> #[trigger] column_fault_at(bytes, base, x)
                is None,
        columns_fault(bytes, base, from) is Some ==> exists|x: int|
            from <= x < picture_width(bytes, base) && #[trigger] column_fault_at(bytes, base, x)
                == columns_fault(bytes, base, from) && forall|x2: int|
                from <= x2 < x ==> #[trigger] column_fault_at(bytes, base, x2) is None,
    decreases picture_width(bytes, base) - from,
{
    if from < picture_width(bytes, base) && column_fault_at(bytes, base, from) is None {
        lemma_columns_fault(bytes, base, from + 1);
        if columns_fault(bytes, base, from) is Some {
            let x = choose|x: int|
                from + 1 <= x < picture_width(bytes, base) && #[trigger] column_fault_at(
                    bytes,
                    base,
                    x,
                ) == columns_fault(bytes, base, from + 1) && forall|x2: int|
                    from + 1 <= x2 < x ==> #[trigger] column_fault_at(bytes, base, x2) is None;
            assert(column_fault_at(bytes, base, x) == columns_fault(bytes, base, from));
        }
    }
}

/// A column is refused only for running past the end of the archive or
/// for a post that reaches below the last row.
pub proof fn lemma_column_fault_kinds(bytes: Seq<u8>, at: int, height: int)
    ensures
        column_fault(bytes, at, height) is None || column_fault(bytes, at, height) == Some(
            WadError::Truncated,
        ) || column_fault(bytes, at, height) == Some(WadError::OutOfRange),
    decreases bytes.len() - at,
{
    if at >= 0 && at + 2 <= bytes.len() && bytes[at] != END_OF_COLUMN && post_fault(
        bytes,
        at,
        height,
    ) is None {
        lemma_column_fault_kinds(bytes, at + 4 + bytes[at + 1], height);
    }
}

/// A picture is refused only for running past the end of the archive, for
/// an offset that points past it, or for a post that reaches below the
/// last row.
pub proof fn lemma_picture_fault_kinds(bytes: Seq<u8>, base: int)
    ensures
        picture_fault(bytes, base) is None || picture_fault(bytes, base) == Some(
            WadError::Truncated,
        ) || picture_fault(bytes, base) == Some(WadError::OutOfRange),
{
    lemma_columns_fault_kinds(bytes, base, 0);
}

proof fn lemma_columns_fault_kinds(bytes: Seq<u8>, base: int, from: int)
    ensures
        columns_fault(bytes, base, from) is None || columns_fault(bytes, base, from) == Some(
            WadError::Truncated,
        ) || columns_fault(bytes, base, from) == Some(WadError::OutOfRange),
    decreases picture_width(bytes, base) - from,
{
    if from < picture_width(bytes, base) {
        lemma_column_fault_kinds(
            bytes,
            column_start(bytes, base, from),
            picture_height(bytes, base),
        );
        lemma_columns_fault_kinds(bytes, base, from + 1);
    }
}

} // verus!
