//! Pixel buffers: a single-channel raster filled with escape results.
use vstd::prelude::*;
use vstd::arithmetic::div_mod::lemma_fundamental_div_mod_converse;

verus! {

/// The pixel size of one rendered tile.
#[derive(Clone, Copy, Debug, PartialEq, Eq, Structural)]
pub struct Resolution {
    pub width: u32,
    pub height: u32,
}

impl Resolution {
    /// Both dimensions are positive.
    pub open spec fn wf(&self) -> bool {
        self.width > 0 && self.height > 0
    }

    /// How many pixels a tile of this size has.
    pub open spec fn pixel_count(&self) -> nat {
        self.width as nat * self.height as nat
    }
}

/// The position in a row-major buffer of `width` columns of pixel `(x, y)`.
pub open spec fn pixel_index(width: nat, x: nat, y: nat) -> nat {
    x + y * width
}

/// The pixel visited at step `k` when a tile is walked column by column
/// (`y` varies inside `x`).
pub fn pixel_at(res: &Resolution, k: u64) -> (r: (u32, u32))
    requires
        res.wf(),
        k < res.pixel_count(),
    ensures
        r.0 == k as nat / res.height as nat,
        r.1 == k as nat % res.height as nat,
        r.0 < res.width,
        r.1 < res.height,
{
    let h = res.height as u64;
    proof {
        let w = res.width as nat;
        assert(k / h < w) by (nonlinear_arith)
            requires
                k < w * h,
                h > 0,
        ;
    }
    ((k / h) as u32, (k % h) as u32)
}

/// The grey level of one escape result: interior points are black, and an
/// escape at `n` gives `255 - floor(n * 255 / limit)`, which truncation keeps
/// in `[0, 255]`.
pub open spec fn intensity_of(result: Option<u16>, limit: nat) -> u8 {
    match result {
        None => 0u8,
        Some(n) => {
            let scaled = (n as nat * 255) / limit;
            if scaled >= 255 {
                0u8
            } else {
                (255 - scaled) as u8
            }
        },
    }
}

/// The buffer after writing one `((x, y), result)` entry: its pixel gets the
/// grey level of the result, and an entry outside the buffer changes nothing.
pub open spec fn write_entry(
    buf: Seq<u8>,
    width: nat,
    entry: ((u32, u32), Option<u16>),
    limit: nat,
) -> Seq<u8> {
    let idx = pixel_index(width, entry.0.0 as nat, entry.0.1 as nat);
    if idx < buf.len() {
        buf.update(idx as int, intensity_of(entry.1, limit))
    } else {
        buf
    }
}

/// The buffer after writing all `entries`, in order.
pub open spec fn write_entries(
    buf: Seq<u8>,
    width: nat,
    entries: Seq<((u32, u32), Option<u16>)>,
    limit: nat,
) -> Seq<u8>
    decreases entries.len(),
{
    if entries.len() == 0 {
        buf
    } else {
        write_entry(
            write_entries(buf, width, entries.drop_last(), limit),
            width,
            entries.last(),
            limit,
        )
    }
}

/// The largest byte of a non-empty sequence.
pub open spec fn seq_max(s: Seq<u8>) -> u8
    decreases s.len(),
{
    if s.len() <= 1 {
        s[0]
    } else {
        let m = seq_max(s.drop_last());
        if s.last() > m {
            s.last()
        } else {
            m
        }
    }
}

/// The smallest byte of a non-empty sequence.
pub open spec fn seq_min(s: Seq<u8>) -> u8
    decreases s.len(),
{
    if s.len() <= 1 {
        s[0]
    } else {
        let m = seq_min(s.drop_last());
        if s.last() < m {
            s.last()
        } else {
            m
        }
    }
}

/// The grey level of an escape result under iteration limit `escape_limit`.
pub fn intensity(result: Option<u16>, escape_limit: u16) -> (r: u8)
    requires
        escape_limit >= 1,
    ensures
        r == intensity_of(result, escape_limit as nat),
{
    match result {
        None => 0,
        Some(n) => {
            let scaled: u32 = (n as u32 * 255) / escape_limit as u32;
            if scaled >= 255 {
                0
            } else {
                (255 - scaled) as u8
            }
        },
    }
}

/// The spread `max - min` of a non-empty byte buffer.
pub fn intensity_range(data: &Vec<u8>) -> (r: u8)
    requires
        data.len() > 0,
    ensures
        r == seq_max(data@) - seq_min(data@),
{
    let mut hi: u8 = data[0];
    let mut lo: u8 = data[0];
    let mut i: usize = 1;
    assert(data@.subrange(0, 1).drop_last().len() == 0);
    while i < data.len()
        invariant
            1 <= i <= data.len(),
            hi == seq_max(data@.subrange(0, i as int)),
            lo == seq_min(data@.subrange(0, i as int)),
            lo <= hi,
        decreases data.len() - i,
    {
        assert(data@.subrange(0, i as int + 1).drop_last() == data@.subrange(0, i as int));
        if data[i] > hi {
            hi = data[i];
        }
        if data[i] < lo {
            lo = data[i];
        }
        i = i + 1;
    }
    assert(data@.subrange(0, data.len() as int) == data@);
    hi - lo
}

/// The buffer position of one entry.
pub open spec fn entry_index(width: nat, entry: ((u32, u32), Option<u16>)) -> nat {
    pixel_index(width, entry.0.0 as nat, entry.0.1 as nat)
}

/// When no two entries share a position, the order of writing does not
/// matter: each entry's pixel ends up with the grey level of that entry, and
/// every other pixel keeps its byte.
pub proof fn lemma_distinct_writes(
    buf: Seq<u8>,
    width: nat,
    entries: Seq<((u32, u32), Option<u16>)>,
    limit: nat,
)
    requires
        forall|a: int, b: int|
            0 <= a < b < entries.len() ==> entry_index(width, #[trigger] entries[a])
                != entry_index(width, #[trigger] entries[b]),
    ensures
        write_entries(buf, width, entries, limit).len() == buf.len(),
        forall|k: int|
            0 <= k < entries.len() && entry_index(width, #[trigger] entries[k]) < buf.len()
                ==> write_entries(buf, width, entries, limit)[entry_index(width, entries[k]) as int]
                == intensity_of(entries[k].1, limit),
        forall|i: int|
            0 <= i < buf.len() && (forall|k: int|
                0 <= k < entries.len() ==> entry_index(width, #[trigger] entries[k]) != i)
                ==> #[trigger] write_entries(buf, width, entries, limit)[i] == buf[i],
    decreases entries.len(),
{
    if entries.len() > 0 {
        let prefix = entries.drop_last();
        assert forall|a: int, b: int|
            0 <= a < b < prefix.len() implies entry_index(width, #[trigger] prefix[a])
            != entry_index(width, #[trigger] prefix[b]) by {
            assert(prefix[a] == entries[a] && prefix[b] == entries[b]);
        }
        lemma_distinct_writes(buf, width, prefix, limit);
        let last = entries.len() - 1;
        assert forall|k: int|
            0 <= k < entries.len() && entry_index(width, #[trigger] entries[k]) < buf.len()
                implies write_entries(buf, width, entries, limit)[entry_index(
            width,
            entries[k],
        ) as int] == intensity_of(entries[k].1, limit) by {
            if k < last {
                assert(prefix[k] == entries[k]);
            }
        }
        assert forall|i: int|
            0 <= i < buf.len() && (forall|k: int|
                0 <= k < entries.len() ==> entry_index(width, #[trigger] entries[k]) != i)
                implies #[trigger] write_entries(buf, width, entries, limit)[i] == buf[i] by {
            assert forall|k: int| 0 <= k < prefix.len() implies entry_index(
                width,
                #[trigger] prefix[k],
            ) != i by {
                assert(prefix[k] == entries[k]);
            }
            assert(entry_index(width, entries[last]) != i);
        }
    }
}

/// A tile rendered from the full column-by-column walk of its pixels, entry
/// `k` standing at `(k / height, k % height)`, holds at pixel `(x, y)` the
/// grey level of that pixel's own result, entry `x * height + y`.
pub proof fn lemma_full_walk_renders_each_pixel(
    res: Resolution,
    entries: Seq<((u32, u32), Option<u16>)>,
    limit: nat,
)
    requires
        res.wf(),
        entries.len() == res.pixel_count(),
        forall|k: int|
            0 <= k < entries.len() ==> (#[trigger] entries[k]).0 == ((k / res.height as int) as u32, (k
                % res.height as int) as u32),
    ensures
        rendered(res, entries, limit).len() == res.pixel_count(),
        forall|x: u32, y: u32|
            x < res.width && y < res.height ==> #[trigger] rendered(res, entries, limit)[pixel_index(
                res.width as nat,
                x as nat,
                y as nat,
            ) as int] == intensity_of(entries[x * res.height + y].1, limit),
{
    let w = res.width as nat;
    let h = res.height as int;
    let buf = Seq::new(res.pixel_count(), |i: int| 0u8);
    assert forall|k: int| 0 <= k < entries.len() implies {
        &&& 0 <= k / h < w
        &&& 0 <= k % h < h
        &&& entry_index(w, #[trigger] entries[k]) == k / h + (k % h) * w
        &&& entry_index(w, entries[k]) < res.pixel_count()
    } by {
        walk_position_facts(res, k);
    }
    assert forall|a: int, b: int|
        0 <= a < b < entries.len() implies entry_index(w, #[trigger] entries[a]) != entry_index(
        w,
        #[trigger] entries[b],
    ) by {
        walk_position_facts(res, a);
        walk_position_facts(res, b);
        vstd::arithmetic::div_mod::lemma_fundamental_div_mod(a, h);
        vstd::arithmetic::div_mod::lemma_fundamental_div_mod(b, h);
        if entry_index(w, entries[a]) == entry_index(w, entries[b]) {
            lemma_fundamental_div_mod_converse(
                entry_index(w, entries[a]) as int,
                w as int,
                a % h,
                a / h,
            );
            lemma_fundamental_div_mod_converse(
                entry_index(w, entries[b]) as int,
                w as int,
                b % h,
                b / h,
            );
        }
    }
    lemma_distinct_writes(buf, w, entries, limit);
    assert forall|x: u32, y: u32| x < res.width && y < res.height implies #[trigger] rendered(
        res,
        entries,
        limit,
    )[pixel_index(w, x as nat, y as nat) as int] == intensity_of(
        entries[x * res.height + y].1,
        limit,
    ) by {
        let k = x * h + y;
        assert(0 <= k < res.pixel_count()) by (nonlinear_arith)
            requires
                k == x * h + y,
                x < w,
                y < h,
                res.pixel_count() == w * h,
        ;
        lemma_fundamental_div_mod_converse(k, h, x as int, y as int);
        walk_position_facts(res, k);
    }
}

proof fn walk_position_facts(res: Resolution, k: int)
    requires
        res.wf(),
        0 <= k < res.pixel_count(),
    ensures
        0 <= k / (res.height as int) < res.width,
        0 <= k % (res.height as int) < res.height,
        0 <= k / (res.height as int) + (k % (res.height as int)) * res.width < res.pixel_count(),
{
    let w = res.width as int;
    let h = res.height as int;
    assert(0 <= k / h < w) by (nonlinear_arith)
        requires
            0 <= k < w * h,
            h > 0,
    ;
    let x = k / h;
    let y = k % h;
    assert(0 <= x + y * w < w * h) by (nonlinear_arith)
        requires
            0 <= x < w,
            0 <= y < h,
    ;
}

/// A tile's raster: one byte per pixel, row-major, `x + y * width`.
pub struct Image {
    pub resolution: Resolution,
    pub data: Vec<u8>,
}

impl Image {
    /// The buffer holds exactly one byte per pixel of a valid resolution.
    pub open spec fn wf(&self) -> bool {
        &&& self.resolution.wf()
        &&& self.data.len() == self.resolution.pixel_count()
    }

    /// An all-black buffer of the given size.
    pub fn new(res: &Resolution) -> (r: Image)
        requires
            res.wf(),
            res.pixel_count() <= usize::MAX,
        ensures
            r.wf(),
            r.resolution == *res,
            r.data@ == Seq::new(res.pixel_count(), |i: int| 0u8),
    {
        let n = res.width as usize * res.height as usize;
        let data: Vec<u8> = vec![0u8; n];
        assert(data@ =~= Seq::new(res.pixel_count(), |i: int| 0u8));
        Image { resolution: *res, data }
    }

    /// Whether the spread of grey levels exceeds `threshold`; a narrower
    /// tile (all black, or all one shade) is not worth keeping.
    pub fn is_worth_persisting(&self, threshold: u8) -> (r: bool)
        requires
            self.wf(),
        ensures
            r == (seq_max(self.data@) - seq_min(self.data@) > threshold),
    {
        proof {
            assert(self.resolution.pixel_count() > 0) by (nonlinear_arith)
                requires
                    self.resolution.width > 0,
                    self.resolution.height > 0,
            ;
        }
        intensity_range(&self.data) > threshold
    }
}

/// Writes each `((x, y), result)` entry into the buffer as a grey level, in
/// order; entries outside the buffer are ignored.
pub fn write_data(img: &mut Image, entries: &Vec<((u32, u32), Option<u16>)>, escape_limit: u16)
    requires
        old(img).wf(),
        escape_limit >= 1,
    ensures
        final(img).wf(),
        final(img).resolution == old(img).resolution,
        final(img).data@ == write_entries(
            old(img).data@,
            old(img).resolution.width as nat,
            entries@,
            escape_limit as nat,
        ),
{
    let width = img.resolution.width;
    let mut i: usize = 0;
    while i < entries.len()
        invariant
            0 <= i <= entries.len(),
            img.wf(),
            img.resolution == old(img).resolution,
            width == img.resolution.width,
            img.data@ == write_entries(
                old(img).data@,
                width as nat,
                entries@.subrange(0, i as int),
                escape_limit as nat,
            ),
            escape_limit >= 1,
        decreases entries.len() - i,
    {
        assert(entries@.subrange(0, i as int + 1).drop_last() == entries@.subrange(0, i as int));
        let ((x, y), result) = entries[i];
        let idx: u64 = pixel_offset(width, x, y);
        if idx < img.data.len() as u64 {
            let v = intensity(result, escape_limit);
            img.data.set(idx as usize, v);
        }
        i = i + 1;
    }
    assert(entries@.subrange(0, entries.len() as int) == entries@);
}

/// `x + y * width` without overflow.
fn pixel_offset(width: u32, x: u32, y: u32) -> (r: u64)
    ensures
        r == pixel_index(width as nat, x as nat, y as nat),
{
    assert(y as nat * width as nat + x <= u64::MAX) by (nonlinear_arith)
        requires
            y <= u32::MAX,
            width <= u32::MAX,
            x <= u32::MAX,
    ;
    let yw: u64 = y as u64 * width as u64;
    yw + x as u64
}


/// The buffer of a tile of size `res` rendered from `entries`: black, then
/// each entry written in order.
pub open spec fn rendered(res: Resolution, entries: Seq<((u32, u32), Option<u16>)>, limit: nat) -> Seq<
    u8,
> {
    write_entries(Seq::new(res.pixel_count(), |i: int| 0u8), res.width as nat, entries, limit)
}

/// Builds a fresh buffer of size `res` and writes `entries` into it.
pub fn render_tile(res: &Resolution, entries: &Vec<((u32, u32), Option<u16>)>, escape_limit: u16) -> (r:
    Image)
    requires
        res.wf(),
        res.pixel_count() <= usize::MAX,
        escape_limit >= 1,
    ensures
        r.wf(),
        r.resolution == *res,
        r.data@ == rendered(*res, entries@, escape_limit as nat),
{
    let mut img = Image::new(res);
    write_data(&mut img, entries, escape_limit);
    img
}

/// Rendering depends on nothing but its inputs: two tiles rendered from the
/// same resolution, entries and limit hold the same bytes.
pub proof fn lemma_render_deterministic(
    res: Resolution,
    entries: Seq<((u32, u32), Option<u16>)>,
    limit: nat,
    first: Image,
    second: Image,
)
    requires
        first.resolution == res,
        second.resolution == res,
        first.data@ == rendered(res, entries, limit),
        second.data@ == rendered(res, entries, limit),
    ensures
        first.data@ == second.data@,
        first.resolution == second.resolution,
{
}

} // verus!
