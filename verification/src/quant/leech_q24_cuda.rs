//! Argument checks of the CUDA Q24-tANS decoder, and the bit offsets that its
//! kernels start from.

use vstd::prelude::*;

use crate::text::{cat3, cat4, decimal, signed_decimal, to_decimal, to_signed_decimal};

verus! {

#[derive(Debug, Clone, Copy, PartialEq, Eq, Structural)]
pub enum LeechQ24DecodeError {
    OutputBufferTooSmall { needed: usize, got: usize },
    UnsupportedTileSize(i32),
    UnsupportedWOffset(i32),
    TileBitOffsetsTooSmall { needed: usize, got: usize },
    DecodeTablesWrongSize { needed: usize, got: usize },
}

impl LeechQ24DecodeError {
    /// The text shown to users.
    pub open spec fn text(self) -> Seq<char> {
        match self {
            LeechQ24DecodeError::OutputBufferTooSmall { needed, got } =>
                "out_v too small: need "@ + decimal(needed as nat) + " bytes, got "@ + decimal(
                    got as nat,
                ),
            LeechQ24DecodeError::UnsupportedTileSize(t) =>
                "unsupported tile_size "@ + signed_decimal(t as int)
                    + ": production kernel hard-codes 32"@,
            LeechQ24DecodeError::UnsupportedWOffset(w) =>
                "unsupported w_offset "@ + signed_decimal(w as int)
                    + ": ms=13 → 3, ms=18 → 4 are the only supported values"@,
            LeechQ24DecodeError::TileBitOffsetsTooSmall { needed, got } =>
                "tile_bit_offsets too small: need "@ + decimal(needed as nat) + " u64s, got "@
                    + decimal(got as nat),
            LeechQ24DecodeError::DecodeTablesWrongSize { needed, got } =>
                "decode_tables wrong size: need "@ + decimal(needed as nat)
                    + " u32s (4 × 1024), got "@ + decimal(got as nat),
        }
    }

    /// The text shown to users.
    pub fn message(&self) -> (r: String)
        ensures
            r@ == self.text(),
    {
        match self {
            LeechQ24DecodeError::OutputBufferTooSmall { needed, got } => cat4(
                "out_v too small: need ",
                to_decimal(*needed as u64).as_str(),
                " bytes, got ",
                to_decimal(*got as u64).as_str(),
            ),
            LeechQ24DecodeError::UnsupportedTileSize(t) => cat3(
                "unsupported tile_size ",
                to_signed_decimal(*t).as_str(),
                ": production kernel hard-codes 32",
            ),
            LeechQ24DecodeError::UnsupportedWOffset(w) => cat3(
                "unsupported w_offset ",
                to_signed_decimal(*w).as_str(),
                ": ms=13 → 3, ms=18 → 4 are the only supported values",
            ),
            LeechQ24DecodeError::TileBitOffsetsTooSmall { needed, got } => cat4(
                "tile_bit_offsets too small: need ",
                to_decimal(*needed as u64).as_str(),
                " u64s, got ",
                to_decimal(*got as u64).as_str(),
            ),
            LeechQ24DecodeError::DecodeTablesWrongSize { needed, got } => cat4(
                "decode_tables wrong size: need ",
                to_decimal(*needed as u64).as_str(),
                " u32s (4 × 1024), got ",
                to_decimal(*got as u64).as_str(),
            ),
        }
    }
}

/// Entries of the decode tables: four codebooks of 1024 states.
pub const DECODE_TABLE_ENTRIES: usize = 4096;

/// Checks the decode tables before they are copied to the device, and says
/// whether they have to be: tables of the symbol set that is already there
/// need not be copied again, those of another one must be.
pub fn plan_init_tables(table_len: usize, symbol_set_id: u32, loaded: Option<u32>) -> (r: Result<
    bool,
    LeechQ24DecodeError,
>)
    ensures
        r == if table_len != DECODE_TABLE_ENTRIES {
            Err::<bool, LeechQ24DecodeError>(
                LeechQ24DecodeError::DecodeTablesWrongSize {
                    needed: DECODE_TABLE_ENTRIES,
                    got: table_len,
                },
            )
        } else {
            Ok(loaded != Some(symbol_set_id))
        },
{
    if table_len != DECODE_TABLE_ENTRIES {
        return Err(
            LeechQ24DecodeError::DecodeTablesWrongSize {
                needed: DECODE_TABLE_ENTRIES,
                got: table_len,
            },
        );
    }
    match loaded {
        Some(id) => Ok(id != symbol_set_id),
        None => Ok(true),
    }
}

/// What is on the device: a symbol set and its decode tables, once some were
/// copied.
pub type LoadedTables = Option<(u32, Seq<u32>)>;

/// Whether the tables of a symbol set are on the device.
pub open spec fn holds_set(on_device: LoadedTables, symbol_set_id: u32) -> bool {
    on_device matches Some(t) && t.0 == symbol_set_id
}

/// What setting up the tables of a symbol set gives: whether they have to be
/// copied, or the complaint that they are not the right number of entries.
pub open spec fn init_outcome(
    on_device: LoadedTables,
    tables: Seq<u32>,
    symbol_set_id: u32,
) -> Result<bool, LeechQ24DecodeError> {
    if tables.len() != DECODE_TABLE_ENTRIES {
        Err(
            LeechQ24DecodeError::DecodeTablesWrongSize {
                needed: DECODE_TABLE_ENTRIES,
                got: tables.len() as usize,
            },
        )
    } else {
        Ok(!holds_set(on_device, symbol_set_id))
    }
}

/// What is on the device afterwards.
pub open spec fn tables_after(
    on_device: LoadedTables,
    tables: Seq<u32>,
    symbol_set_id: u32,
) -> LoadedTables {
    if init_outcome(on_device, tables, symbol_set_id) == Ok::<bool, LeechQ24DecodeError>(true) {
        Some((symbol_set_id, tables))
    } else {
        on_device
    }
}

/// Keeps track of the decode tables on the device.
pub struct DeviceTables {
    symbol_set: Option<u32>,
    entries: Ghost<Seq<u32>>,
}

impl View for DeviceTables {
    type V = LoadedTables;

    closed spec fn view(&self) -> LoadedTables {
        match self.symbol_set {
            Some(id) => Some((id, self.entries@)),
            None => None,
        }
    }
}

impl DeviceTables {
    /// A device without tables.
    pub fn new() -> (r: Self)
        ensures
            r@ is None,
    {
        DeviceTables { symbol_set: None, entries: Ghost(Seq::empty()) }
    }

    /// The symbol set whose tables are on the device.
    pub fn symbol_set(&self) -> (r: Option<u32>)
        ensures
            r == match self@ {
                Some(t) => Some(t.0),
                None => None,
            },
    {
        self.symbol_set
    }

    /// Sets up the tables of a symbol set. On `Ok(true)` the caller copies them
    /// to the device; on `Ok(false)` that symbol set's are there already.
    pub fn init_tables(&mut self, decode_tables: &[u32], symbol_set_id: u32) -> (r: Result<
        bool,
        LeechQ24DecodeError,
    >)
        ensures
            r == init_outcome(old(self)@, decode_tables@, symbol_set_id),
            final(self)@ == tables_after(old(self)@, decode_tables@, symbol_set_id),
    {
        match plan_init_tables(decode_tables.len(), symbol_set_id, self.symbol_set) {
            Ok(copy) => {
                if copy {
                    self.symbol_set = Some(symbol_set_id);
                    self.entries = Ghost(decode_tables@);
                }
                Ok(copy)
            },
            Err(e) => Err(e),
        }
    }
}

/// Setting up tables of the wrong size is refused and changes nothing, that of
/// the symbol set that is on the device copies nothing and changes nothing, and
/// that of any other set copies its tables, which are then on the device.
pub proof fn tables_on_device_are_the_last_copied(
    on_device: LoadedTables,
    tables: Seq<u32>,
    id: u32,
)
    ensures
        tables.len() != 4096 ==> {
            &&& init_outcome(on_device, tables, id) is Err
            &&& tables_after(on_device, tables, id) == on_device
        },
        tables.len() == 4096 && (on_device matches Some(t) && t.0 == id) ==> {
            &&& init_outcome(on_device, tables, id) == Ok::<bool, LeechQ24DecodeError>(false)
            &&& tables_after(on_device, tables, id) == on_device
        },
        tables.len() == 4096 && !(on_device matches Some(t) && t.0 == id) ==> {
            &&& init_outcome(on_device, tables, id) == Ok::<bool, LeechQ24DecodeError>(true)
            &&& tables_after(on_device, tables, id) == Some((id, tables))
        },
{
}

/// Tables are copied once per symbol set: after tables of set `a` were set up,
/// those of `a` are on the device; setting up `a` again copies nothing and
/// changes nothing, setting up another set copies its tables, which are then
/// the ones on the device. Tables of the wrong size change nothing.
pub proof fn tables_are_copied_per_symbol_set(
    on_device: LoadedTables,
    first: Seq<u32>,
    a: u32,
    second: Seq<u32>,
    b: u32,
)
    requires
        init_outcome(on_device, first, a) is Ok,
    ensures
        ({
            let between = tables_after(on_device, first, a);
            let after = tables_after(between, second, b);
            &&& holds_set(between, a)
            &&& second.len() == DECODE_TABLE_ENTRIES && b == a ==> {
                &&& init_outcome(between, second, b) == Ok::<bool, LeechQ24DecodeError>(false)
                &&& after == between
            }
            &&& second.len() == DECODE_TABLE_ENTRIES && b != a ==> {
                &&& init_outcome(between, second, b) == Ok::<bool, LeechQ24DecodeError>(true)
                &&& after == Some((b, second))
            }
            &&& second.len() != DECODE_TABLE_ENTRIES ==> {
                &&& init_outcome(between, second, b) is Err
                &&& after == between
            }
        }),
{
}

/// Checks the kernel's template parameters before a launch.
pub fn check_kernel_params(w_offset: i32, tile_size: i32) -> (r: Result<(), LeechQ24DecodeError>)
    ensures
        r == if tile_size != 32 {
            Err::<(), LeechQ24DecodeError>(LeechQ24DecodeError::UnsupportedTileSize(tile_size))
        } else if w_offset != 3 && w_offset != 4 {
            Err(LeechQ24DecodeError::UnsupportedWOffset(w_offset))
        } else {
            Ok(())
        },
{
    if tile_size != 32 {
        return Err(LeechQ24DecodeError::UnsupportedTileSize(tile_size));
    }
    if !(w_offset == 3 || w_offset == 4) {
        return Err(LeechQ24DecodeError::UnsupportedWOffset(w_offset));
    }
    Ok(())
}

/// The sum of the first `n` counts.
pub open spec fn count_sum(counts: Seq<u16>, n: int) -> int
    decreases n,
{
    if n <= 0 {
        0
    } else {
        count_sum(counts, n - 1) + counts[n - 1]
    }
}

/// A sum of counts grows with each count, by at most 65535.
pub proof fn count_sum_grows(counts: Seq<u16>, m: int, n: int)
    requires
        0 <= m <= n,
    ensures
        0 <= count_sum(counts, m) <= count_sum(counts, n) <= count_sum(counts, m) + (n - m)
            * 0xFFFF,
    decreases n,
{
    if m < n {
        count_sum_grows(counts, m, n - 1);
    } else if n > 0 {
        count_sum_grows(counts, n - 1, n - 1);
    }
}

/// Where each tile's bits start: the number of bits of all tiles before it.
pub open spec fn tile_offsets(counts: Seq<u16>) -> Seq<u64> {
    Seq::new(counts.len(), |i: int| count_sum(counts, i) as u64)
}

/// Prefix sum of `tile_nb_totals`: element `i` holds the bit count of all
/// tiles before `i`. The kernel uses this as the absolute bit-offset base for
/// each tile.
pub fn compute_tile_bit_offsets(tile_nb_totals: &[u16]) -> (out: Vec<u64>)
    requires
        count_sum(tile_nb_totals@, tile_nb_totals@.len() as int) <= u64::MAX,
    ensures
        out@ == tile_offsets(tile_nb_totals@),
{
    let mut out: Vec<u64> = Vec::with_capacity(tile_nb_totals.len());
    let mut acc: u64 = 0;
    let mut i: usize = 0;
    while i < tile_nb_totals.len()
        invariant
            i <= tile_nb_totals.len(),
            count_sum(tile_nb_totals@, tile_nb_totals@.len() as int) <= u64::MAX,
            acc == count_sum(tile_nb_totals@, i as int),
            out@ == Seq::new(i as nat, |k: int| count_sum(tile_nb_totals@, k) as u64),
        decreases tile_nb_totals.len() - i,
    {
        out.push(acc);
        proof {
            count_sum_grows(tile_nb_totals@, i + 1, tile_nb_totals@.len() as int);
        }
        acc = acc + tile_nb_totals[i] as u64;
        i = i + 1;
    }
    out
}

/// Tiles start at bit 0, and each one starts where the one before it ends.
pub proof fn tile_offsets_are_contiguous(counts: Seq<u16>, i: int)
    requires
        0 <= i < counts.len(),
        count_sum(counts, counts.len() as int) <= u64::MAX,
    ensures
        tile_offsets(counts).len() == counts.len(),
        i == 0 ==> tile_offsets(counts)[i] == 0,
        i + 1 < counts.len() ==> tile_offsets(counts)[i + 1] == tile_offsets(counts)[i]
            + counts[i],
{
    count_sum_grows(counts, i, counts.len() as int);
    if i + 1 < counts.len() {
        count_sum_grows(counts, i + 1, counts.len() as int);
    }
}

/// Where the bits of substream `s` of tile `t` start: at the tile's start,
/// behind the tile's earlier substreams.
pub open spec fn substream_start(tiles: Seq<u16>, subs: Seq<u16>, k: int, t: int, s: int) -> int {
    count_sum(tiles, t) + count_sum(subs, t * k + s) - count_sum(subs, t * k)
}

/// Where each substream's bits start, tile by tile.
pub open spec fn substream_offsets(tiles: Seq<u16>, subs: Seq<u16>, k: int) -> Seq<u64> {
    Seq::new(
        (tiles.len() * k) as nat,
        |i: int| substream_start(tiles, subs, k, i / k, i % k) as u64,
    )
}

/// Absolute bit offset of every substream, for `k` substreams per tile: tile
/// base plus the bit counts of the tile's earlier substreams.
pub fn compute_substream_bit_offsets(
    tile_nb_totals: &[u16],
    substream_nb_totals: &[u16],
    k: usize,
) -> (out: Vec<u64>)
    requires
        k >= 1,
        substream_nb_totals@.len() == tile_nb_totals@.len() * k,
        count_sum(tile_nb_totals@, tile_nb_totals@.len() as int) + count_sum(
            substream_nb_totals@,
            substream_nb_totals@.len() as int,
        ) <= u64::MAX,
    ensures
        out@ == substream_offsets(tile_nb_totals@, substream_nb_totals@, k as int),
{
    let mut out: Vec<u64> = Vec::with_capacity(substream_nb_totals.len());
    let mut base: u64 = 0;
    let mut acc: u64 = 0;
    let mut t: usize = 0;
    let mut s: usize = 0;
    let mut i: usize = 0;
    let ghost tiles = tile_nb_totals@;
    let ghost subs = substream_nb_totals@;
    while i < substream_nb_totals.len()
        invariant
            i <= substream_nb_totals.len(),
            k >= 1,
            tiles == tile_nb_totals@,
            subs == substream_nb_totals@,
            subs.len() == tiles.len() * k,
            count_sum(tiles, tiles.len() as int) + count_sum(subs, subs.len() as int) <= u64::MAX,
            i == t * k + s,
            s < k,
            t <= tiles.len(),
            base == count_sum(tiles, t as int),
            acc == count_sum(subs, i as int) - count_sum(subs, t * k),
            out@ == Seq::new(
                i as nat,
                |j: int| substream_start(tiles, subs, k as int, j / k as int, j % k as int) as u64,
            ),
        decreases substream_nb_totals.len() - i,
    {
        proof {
            lemma_position(i as int, t as int, s as int, k as int);
            assert(t < tiles.len()) by (nonlinear_arith)
                requires
                    t * k + s < tiles.len() * k,
                    0 <= s,
                    k >= 1,
            ;
            assert(t * k >= 0) by (nonlinear_arith);
            count_sum_grows(tiles, t as int, tiles.len() as int);
            count_sum_grows(tiles, t + 1, tiles.len() as int);
            count_sum_grows(subs, t * k, i as int);
            count_sum_grows(subs, i as int, subs.len() as int);
            count_sum_grows(subs, i + 1, subs.len() as int);
        }
        out.push(base + acc);
        acc = acc + substream_nb_totals[i] as u64;
        i = i + 1;
        s = s + 1;
        if s == k {
            assert(t * k + k == (t + 1) * k) by (nonlinear_arith);
            base = base + tile_nb_totals[t] as u64;
            t = t + 1;
            s = 0;
            acc = 0;
        }
    }
    out
}

proof fn lemma_position(i: int, t: int, s: int, k: int)
    requires
        i == t * k + s,
        0 <= s < k,
        0 <= t,
    ensures
        i / k == t,
        i % k == s,
{
    vstd::arithmetic::div_mod::lemma_fundamental_div_mod_converse(i, k, t, s);
}

/// There is one offset for each substream of each tile. A tile's first substream
/// starts where the tile does, and each other one where the one before it ends.
pub proof fn substreams_start_with_their_tile(
    tiles: Seq<u16>,
    subs: Seq<u16>,
    k: int,
    t: int,
    s: int,
)
    requires
        k >= 1,
        subs.len() == tiles.len() * k,
        count_sum(tiles, tiles.len() as int) + count_sum(subs, subs.len() as int) <= u64::MAX,
        0 <= t < tiles.len(),
        0 <= s < k,
    ensures
        ({
            let starts = substream_offsets(tiles, subs, k);
            &&& starts.len() == tiles.len() * k
            &&& 0 <= t * k + s < starts.len()
            &&& s == 0 ==> starts[t * k + s] == tile_offsets(tiles)[t]
            &&& s + 1 < k ==> starts[t * k + s + 1] == starts[t * k + s] + subs[t * k + s]
        }),
{
    let i = t * k + s;
    assert(0 <= t * k && t * k + k <= tiles.len() * k) by (nonlinear_arith)
        requires
            0 <= t < tiles.len(),
            k >= 1,
    ;
    lemma_position(i, t, s, k);
    count_sum_grows(tiles, t, tiles.len() as int);
    count_sum_grows(subs, t * k, i);
    count_sum_grows(subs, i, subs.len() as int);
    count_sum_grows(subs, 0, t * k);
    if s + 1 < k {
        lemma_position(i + 1, t, s + 1, k);
        count_sum_grows(subs, i + 1, subs.len() as int);
    }
}

/// With one substream per tile whose counts are the tile counts, the substream
/// offsets are the tile offsets.
pub proof fn single_substream_offsets_are_tile_offsets(tiles: Seq<u16>)
    ensures
        substream_offsets(tiles, tiles, 1) == tile_offsets(tiles),
{
    assert forall|i: int| 0 <= i < tiles.len() implies substream_start(
        tiles,
        tiles,
        1,
        i / 1,
        i % 1,
    ) == count_sum(tiles, i) by {
        assert(i / 1 == i && i % 1 == 0);
    }
    assert(substream_offsets(tiles, tiles, 1) =~= tile_offsets(tiles));
}

/// When each tile's count is the sum of its substreams' counts, the substreams
/// lie back to back through the whole stream: the start of each is the bit
/// count of all substreams before it.
pub proof fn substreams_are_contiguous(tiles: Seq<u16>, subs: Seq<u16>, k: int, t: int, s: int)
    requires
        k >= 1,
        subs.len() == tiles.len() * k,
        0 <= t < tiles.len(),
        0 <= s < k,
        forall|u: int|
            0 <= u < tiles.len() ==> #[trigger] tiles[u] == count_sum(subs, (u + 1) * k)
                - count_sum(subs, u * k),
    ensures
        substream_start(tiles, subs, k, t, s) == count_sum(subs, t * k + s),
{
    lemma_tile_sum(tiles, subs, k, t);
}

proof fn lemma_tile_sum(tiles: Seq<u16>, subs: Seq<u16>, k: int, t: int)
    requires
        k >= 1,
        0 <= t <= tiles.len(),
        forall|u: int|
            0 <= u < tiles.len() ==> #[trigger] tiles[u] == count_sum(subs, (u + 1) * k)
                - count_sum(subs, u * k),
    ensures
        count_sum(tiles, t) == count_sum(subs, t * k),
    decreases t,
{
    if t > 0 {
        lemma_tile_sum(tiles, subs, k, t - 1);
        assert(tiles[t - 1] == count_sum(subs, (t - 1 + 1) * k) - count_sum(subs, (t - 1) * k));
    } else {
        assert(t * k == 0) by (nonlinear_arith)
            requires
                t == 0,
        ;
    }
}

} // verus!
