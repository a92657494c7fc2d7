//! The detail overlay's rows: the selected GPU's identity and every
//! secondary metric, each either as a rounded value with its unit or as the
//! exact phrase of its unavailable state.
use vstd::prelude::*;
use crate::model::{MemoryPool, Observation, PciBdf, PhysicalGpuId, Timestamp};
use crate::text::{decimal, extend_chars, push_decimal, string_of};
use crate::ui::format::{
    iec_bytes, iec_text, pool_display, pool_label, round_half_even, round_half_even_exec,
    unavailable_phrase, unavailable_text,
};

verus! {

/// The selected GPU's primary partition, in source units.
pub struct DetailPartition {
    /// GFX activity, centi-percent.
    pub activity_centipercent: Observation<u64>,
    pub pool: MemoryPool,
    pub mem_used_bytes: Observation<u64>,
    pub mem_total_bytes: Observation<u64>,
    /// GFX clock, hertz.
    pub gfx_clock_hz: Observation<u64>,
    /// Memory-controller activity, centi-percent.
    pub mem_ctl_centipercent: Observation<u64>,
}

/// The selected GPU, in source units.
pub struct DetailView {
    pub name: String,
    pub index: u32,
    pub id: PhysicalGpuId,
    pub bdf: PciBdf,
    pub uuid: Option<String>,
    pub serial: Option<String>,
    pub sampled_at: Timestamp,
    pub primary: Option<DetailPartition>,
    /// Hotspot temperature, milli-Celsius.
    pub hotspot_millic: Observation<i64>,
    /// Hotspot limit, milli-Celsius.
    pub hotspot_limit_millic: Observation<i64>,
    /// Socket power, microwatts.
    pub socket_microwatts: Observation<u64>,
    /// Power cap, microwatts.
    pub power_cap_microwatts: Observation<u64>,
}

/// One row: a label, its value text, and whether the value is an
/// unavailable phrase (shown dimmed).
pub struct DetailRow {
    pub label: String,
    pub value: String,
    pub unavailable: bool,
}

/// A row as plain text.
pub open spec fn row_view(r: DetailRow) -> (Seq<char>, Seq<char>, bool) {
    (r.label@, r.value@, r.unavailable)
}

/// `v / d` rounded half to even, in decimal.
pub open spec fn scaled_text(v: nat, d: nat) -> Seq<char> {
    decimal(round_half_even(v, d))
}

/// A signed `v / d` rounded half to even on its magnitude, with the sign of
/// `v` (`-0` for a small negative value).
pub open spec fn signed_scaled_text(v: int, d: nat) -> Seq<char> {
    if v < 0 {
        "-"@ + scaled_text((-v) as nat, d)
    } else {
        scaled_text(v as nat, d)
    }
}

/// An unsigned observation's row value and dim flag.
pub open spec fn unsigned_cell(
    o: Observation<u64>,
    d: nat,
    unit: Seq<char>,
    at: Timestamp,
) -> (Seq<char>, bool) {
    match o {
        Observation::Value { value, .. } => (scaled_text(value as nat, d) + unit, false),
        Observation::Unavailable { state, observed_at } => (
            unavailable_text(state, observed_at, at),
            true,
        ),
    }
}

/// A signed observation's row value and dim flag.
pub open spec fn signed_cell(o: Observation<i64>, d: nat, unit: Seq<char>, at: Timestamp) -> (
    Seq<char>,
    bool,
) {
    match o {
        Observation::Value { value, .. } => (signed_scaled_text(value as int, d) + unit, false),
        Observation::Unavailable { state, observed_at } => (
            unavailable_text(state, observed_at, at),
            true,
        ),
    }
}

/// A byte-count observation's row value and dim flag.
pub open spec fn bytes_cell(o: Observation<u64>, at: Timestamp) -> (Seq<char>, bool) {
    match o {
        Observation::Value { value, .. } => (iec_text(value as nat), false),
        Observation::Unavailable { state, observed_at } => (
            unavailable_text(state, observed_at, at),
            true,
        ),
    }
}

/// Occupancy in percent: used over a positive total when both are current;
/// otherwise the used observation when it has no value, else the total's.
pub open spec fn occupancy_cell(used: Observation<u64>, total: Observation<u64>, at: Timestamp) -> (
    Seq<char>,
    bool,
) {
    match (used, total) {
        (Observation::Value { value: u, .. }, Observation::Value { value: t, .. }) => if t > 0 {
            (decimal(round_half_even((100 * u) as nat, t as nat)) + "%"@, false)
        } else {
            unsigned_cell(total, 1, "%"@, at)
        },
        (Observation::Unavailable { .. }, _) => unsigned_cell(used, 1, "%"@, at),
        _ => unsigned_cell(total, 1, "%"@, at),
    }
}

/// A labelled row.
pub open spec fn labelled(label: Seq<char>, cell: (Seq<char>, bool)) -> (Seq<char>, Seq<char>, bool) {
    (label, cell.0, cell.1)
}

/// The identity rows: name and display index, id, address, and the uuid
/// and serial when known, then a blank separator.
pub open spec fn identity_rows(v: DetailView) -> Seq<(Seq<char>, Seq<char>, bool)> {
    seq![
        ("gpu"@, v.name@ + " · GPU "@ + decimal(v.index as nat), false),
        ("id"@, v.id@, false),
        ("bdf"@, v.bdf@, false),
    ] + (match v.uuid {
        Some(u) => seq![("uuid"@, u@, false)],
        None => Seq::empty(),
    }) + (match v.serial {
        Some(s) => seq![("serial"@, s@, false)],
        None => Seq::empty(),
    }) + seq![(Seq::<char>::empty(), Seq::<char>::empty(), false)]
}

/// The primary partition's rows.
pub open spec fn partition_rows(p: DetailPartition, at: Timestamp) -> Seq<(Seq<char>, Seq<char>, bool)> {
    seq![
        labelled("activity"@, unsigned_cell(p.activity_centipercent, 100, "%"@, at)),
        ("pool"@, pool_display(p.pool.name()), false),
        labelled("memory used"@, bytes_cell(p.mem_used_bytes, at)),
        labelled("memory total"@, bytes_cell(p.mem_total_bytes, at)),
        labelled("occupancy"@, occupancy_cell(p.mem_used_bytes, p.mem_total_bytes, at)),
        labelled("GFX clock"@, unsigned_cell(p.gfx_clock_hz, 1_000_000, " MHz"@, at)),
        labelled("memory-controller"@, unsigned_cell(p.mem_ctl_centipercent, 100, "%"@, at)),
    ]
}

/// The socket rows: hotspot, its limit, power, and the power cap.
pub open spec fn socket_rows(v: DetailView) -> Seq<(Seq<char>, Seq<char>, bool)> {
    seq![
        labelled("hotspot"@, signed_cell(v.hotspot_millic, 1000, "°C"@, v.sampled_at)),
        labelled("hotspot limit"@, signed_cell(v.hotspot_limit_millic, 1000, "°C"@, v.sampled_at)),
        labelled("power"@, unsigned_cell(v.socket_microwatts, 1_000_000, " W"@, v.sampled_at)),
        labelled("power cap"@, unsigned_cell(v.power_cap_microwatts, 1_000_000, " W"@, v.sampled_at)),
    ]
}

/// Every row of the detail overlay, in order.
pub open spec fn detail_spec(v: DetailView) -> Seq<(Seq<char>, Seq<char>, bool)> {
    identity_rows(v) + (match v.primary {
        Some(p) => partition_rows(p, v.sampled_at),
        None => Seq::empty(),
    }) + socket_rows(v)
}

fn text_of(chars: &Vec<char>) -> (r: String)
    ensures
        r@ == chars@,
{
    string_of(chars)
}

fn label_of(label: &str) -> (r: String)
    ensures
        r@ == label@,
{
    let mut out: Vec<char> = Vec::new();
    extend_chars(&mut out, label);
    string_of(&out)
}

fn scaled(out: &mut Vec<char>, v: u64, d: u64)
    requires
        d > 0,
    ensures
        final(out)@ == old(out)@ + scaled_text(v as nat, d as nat),
{
    push_decimal(out, round_half_even_exec(v as u128, d as u128));
}

fn unsigned_value(o: &Observation<u64>, d: u64, unit: &str, at: Timestamp) -> (r: (String, bool))
    requires
        d > 0,
    ensures
        (r.0@, r.1) == unsigned_cell(*o, d as nat, unit@, at),
{
    match o {
        Observation::Value { value, .. } => {
            let mut out: Vec<char> = Vec::new();
            scaled(&mut out, *value, d);
            extend_chars(&mut out, unit);
            (text_of(&out), false)
        },
        Observation::Unavailable { state, observed_at } => (
            unavailable_phrase(state, *observed_at, at),
            true,
        ),
    }
}

fn signed_value(o: &Observation<i64>, d: u64, unit: &str, at: Timestamp) -> (r: (String, bool))
    requires
        d > 0,
    ensures
        (r.0@, r.1) == signed_cell(*o, d as nat, unit@, at),
{
    match o {
        Observation::Value { value, .. } => {
            let mut out: Vec<char> = Vec::new();
            let v = *value;
            if v < 0 {
                out.push('-');
                let magnitude: u128 = if v == i64::MIN {
                    9223372036854775808u128
                } else {
                    (-v) as u128
                };
                push_decimal(&mut out, round_half_even_exec(magnitude, d as u128));
                assert(magnitude == (-(v as int)) as nat);
            } else {
                push_decimal(&mut out, round_half_even_exec(v as u128, d as u128));
            }
            extend_chars(&mut out, unit);
            proof {
                reveal_strlit("-");
                if v < 0 {
                    assert(out@ =~= "-"@ + scaled_text((-(v as int)) as nat, d as nat) + unit@);
                } else {
                    assert(out@ =~= scaled_text(v as nat, d as nat) + unit@);
                }
            }
            (text_of(&out), false)
        },
        Observation::Unavailable { state, observed_at } => (
            unavailable_phrase(state, *observed_at, at),
            true,
        ),
    }
}

fn bytes_value(o: &Observation<u64>, at: Timestamp) -> (r: (String, bool))
    ensures
        (r.0@, r.1) == bytes_cell(*o, at),
{
    match o {
        Observation::Value { value, .. } => (iec_bytes(*value), false),
        Observation::Unavailable { state, observed_at } => (
            unavailable_phrase(state, *observed_at, at),
            true,
        ),
    }
}

fn occupancy_value(used: &Observation<u64>, total: &Observation<u64>, at: Timestamp) -> (r: (
    String,
    bool,
))
    ensures
        (r.0@, r.1) == occupancy_cell(*used, *total, at),
{
    match (used, total) {
        (Observation::Value { value: u, .. }, Observation::Value { value: t, .. }) => {
            if *t > 0 {
                let mut out: Vec<char> = Vec::new();
                push_decimal(&mut out, round_half_even_exec((*u as u128) * 100, *t as u128));
                extend_chars(&mut out, "%");
                assert(out@ =~= decimal(round_half_even((100 * *u) as nat, *t as nat)) + "%"@);
                (text_of(&out), false)
            } else {
                unsigned_value(total, 1, "%", at)
            }
        },
        (Observation::Unavailable { .. }, _) => unsigned_value(used, 1, "%", at),
        _ => unsigned_value(total, 1, "%", at),
    }
}

fn push_row(rows: &mut Vec<DetailRow>, label: &str, cell: (String, bool))
    ensures
        final(rows)@.map_values(|r: DetailRow| row_view(r)) == old(rows)@.map_values(
            |r: DetailRow| row_view(r),
        ).push((label@, cell.0@, cell.1)),
{
    let ghost before = rows@;
    rows.push(DetailRow { label: label_of(label), value: cell.0, unavailable: cell.1 });
    assert(rows@.map_values(|r: DetailRow| row_view(r)) =~= before.map_values(
        |r: DetailRow| row_view(r),
    ).push((label@, cell.0@, cell.1)));
}

fn clone_text(s: &String) -> (r: String)
    ensures
        r@ == s@,
{
    text_of(&crate::text::chars_of(s.as_str()))
}

fn push_identity(rows: &mut Vec<DetailRow>, view: &DetailView)
    ensures
        final(rows)@.map_values(|r: DetailRow| row_view(r)) == old(rows)@.map_values(
            |r: DetailRow| row_view(r),
        ) + identity_rows(*view),
{
    let ghost start = rows@.map_values(|r: DetailRow| row_view(r));
    let mut name: Vec<char> = Vec::new();
    extend_chars(&mut name, view.name.as_str());
    extend_chars(&mut name, " · GPU ");
    push_decimal(&mut name, view.index as u128);
    push_row(rows, "gpu", (text_of(&name), false));
    push_row(rows, "id", (label_of(view.id.as_str()), false));
    push_row(rows, "bdf", (label_of(view.bdf.as_str()), false));
    let ghost three = seq![
        ("gpu"@, view.name@ + " · GPU "@ + decimal(view.index as nat), false),
        ("id"@, view.id@, false),
        ("bdf"@, view.bdf@, false),
    ];
    assert(rows@.map_values(|r: DetailRow| row_view(r)) =~= start + three);
    let ghost uuid_rows: Seq<(Seq<char>, Seq<char>, bool)> = match &view.uuid {
        Some(u) => seq![("uuid"@, u@, false)],
        None => Seq::empty(),
    };
    match &view.uuid {
        Some(u) => push_row(rows, "uuid", (clone_text(u), false)),
        None => {},
    }
    assert(rows@.map_values(|r: DetailRow| row_view(r)) =~= start + three + uuid_rows);
    let ghost serial_rows: Seq<(Seq<char>, Seq<char>, bool)> = match &view.serial {
        Some(s) => seq![("serial"@, s@, false)],
        None => Seq::empty(),
    };
    match &view.serial {
        Some(s) => push_row(rows, "serial", (clone_text(s), false)),
        None => {},
    }
    assert(rows@.map_values(|r: DetailRow| row_view(r)) =~= start + three + uuid_rows + serial_rows);
    push_row(rows, "", (label_of(""), false));
    proof {
        reveal_strlit("");
        assert(""@ =~= Seq::<char>::empty());
        assert(identity_rows(*view) =~= three + uuid_rows + serial_rows + seq![
            (Seq::<char>::empty(), Seq::<char>::empty(), false),
        ]);
    }
    assert(rows@.map_values(|r: DetailRow| row_view(r)) =~= start + identity_rows(*view));
}

fn push_partition(rows: &mut Vec<DetailRow>, p: &DetailPartition, at: Timestamp)
    ensures
        final(rows)@.map_values(|r: DetailRow| row_view(r)) == old(rows)@.map_values(
            |r: DetailRow| row_view(r),
        ) + partition_rows(*p, at),
{
    let ghost start = rows@.map_values(|r: DetailRow| row_view(r));
    push_row(rows, "activity", unsigned_value(&p.activity_centipercent, 100, "%", at));
    push_row(rows, "pool", (label_of(pool_label(p.pool.as_str())), false));
    push_row(rows, "memory used", bytes_value(&p.mem_used_bytes, at));
    push_row(rows, "memory total", bytes_value(&p.mem_total_bytes, at));
    push_row(rows, "occupancy", occupancy_value(&p.mem_used_bytes, &p.mem_total_bytes, at));
    push_row(rows, "GFX clock", unsigned_value(&p.gfx_clock_hz, 1_000_000, " MHz", at));
    push_row(rows, "memory-controller", unsigned_value(&p.mem_ctl_centipercent, 100, "%", at));
    assert(rows@.map_values(|r: DetailRow| row_view(r)) =~= start + partition_rows(*p, at));
}

fn push_socket(rows: &mut Vec<DetailRow>, view: &DetailView)
    ensures
        final(rows)@.map_values(|r: DetailRow| row_view(r)) == old(rows)@.map_values(
            |r: DetailRow| row_view(r),
        ) + socket_rows(*view),
{
    let ghost start = rows@.map_values(|r: DetailRow| row_view(r));
    let at = view.sampled_at;
    push_row(rows, "hotspot", signed_value(&view.hotspot_millic, 1000, "°C", at));
    push_row(rows, "hotspot limit", signed_value(&view.hotspot_limit_millic, 1000, "°C", at));
    push_row(rows, "power", unsigned_value(&view.socket_microwatts, 1_000_000, " W", at));
    push_row(rows, "power cap", unsigned_value(&view.power_cap_microwatts, 1_000_000, " W", at));
    assert(rows@.map_values(|r: DetailRow| row_view(r)) =~= start + socket_rows(*view));
}

/// The rows of the detail overlay for the selected GPU.
pub fn detail_rows(view: &DetailView) -> (rows: Vec<DetailRow>)
    ensures
        rows@.map_values(|r: DetailRow| row_view(r)) == detail_spec(*view),
{
    let mut rows: Vec<DetailRow> = Vec::new();
    assert(rows@.map_values(|r: DetailRow| row_view(r)) =~= Seq::empty());
    push_identity(&mut rows, view);
    let ghost after_identity = rows@.map_values(|r: DetailRow| row_view(r));
    match &view.primary {
        Some(p) => push_partition(&mut rows, p, view.sampled_at),
        None => {},
    }
    let ghost after_partition = rows@.map_values(|r: DetailRow| row_view(r));
    push_socket(&mut rows, view);
    proof {
        let part: Seq<(Seq<char>, Seq<char>, bool)> = match &view.primary {
            Some(p) => partition_rows(*p, view.sampled_at),
            None => Seq::empty(),
        };
        assert(after_partition =~= identity_rows(*view) + part);
        assert(rows@.map_values(|r: DetailRow| row_view(r)) =~= detail_spec(*view));
    }
    rows
}

} // verus!
