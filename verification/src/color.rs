use vstd::prelude::*;
use crate::decode::Illuminant;
use crate::dcp::{DcpLayout, LutDims};

verus! {

/// The output RGB colour space of the pipeline.
#[derive(Debug, Clone, Copy, PartialEq, Eq, Structural)]
pub enum TargetColorSpace {
    Srgb,
    DisplayP3,
}

/// Whether camera colours, once in XYZ, are first carried from D50 to D65 by
/// the Bradford transform: exactly when the camera matrix was measured under
/// D50. Under D65, or an unknown or other light source, no adaptation is done.
pub fn adapts_from_d50(cam_illuminant: Option<Illuminant>) -> (r: bool)
    ensures
        r == (cam_illuminant == Some(Illuminant::D50)),
{
    match cam_illuminant {
        Some(Illuminant::D50) => true,
        Some(Illuminant::D65) => false,
        _ => false,
    }
}

/// Which of a profile's two forward matrices is used.
#[derive(Debug, Clone, Copy, PartialEq, Eq, Structural)]
pub enum MatrixSlot {
    First,
    Second,
}

/// Which look-up table of a profile is applied.
#[derive(Debug, Clone, Copy, PartialEq, Eq, Structural)]
pub enum LutSource {
    LookTable,
    HueSatMap1,
    HueSatMap2,
}

/// A 3-D table over hue, saturation and value, with its number of divisions
/// along each axis.
#[derive(Debug, Clone, Copy, PartialEq, Eq, Structural)]
pub struct LutPlan {
    pub source: LutSource,
    pub hue_divisions: usize,
    pub sat_divisions: usize,
    pub val_divisions: usize,
}

/// Which tone curve ends the profile pipeline.
#[derive(Debug, Clone, Copy, PartialEq, Eq, Structural)]
pub enum ToneCurveSource {
    Profile,
    DefaultBase,
}

/// The steps of developing with a DCP profile, decided before any pixel changes.
#[derive(Debug, Clone, Copy, PartialEq, Eq, Structural)]
pub struct DcpPlan {
    pub forward: MatrixSlot,
    pub lut: Option<LutPlan>,
    pub tone: Option<ToneCurveSource>,
}

/// Why a DCP profile cannot be applied.
#[derive(Debug, Clone, Copy, PartialEq, Eq, Structural)]
pub enum DcpError {
    /// The profile has neither forward matrix.
    NoForwardMatrix,
    /// The forward matrix in use has fewer than nine coefficients.
    ForwardMatrixTooShort,
}

/// Coefficients in a 3 x 3 matrix.
pub const MATRIX_LEN: usize = 9;

/// Values stored per table entry: hue shift, saturation scale, value scale.
pub const LUT_ENTRY_LEN: usize = 3;

/// A table with these divisions fits in `data_len` values and can be
/// interpolated: at least one hue division and two saturation and value divisions.
pub open spec fn lut_dims_valid_spec(dims: LutDims, data_len: nat) -> bool {
    &&& dims.hue >= 1
    &&& dims.sat >= 2
    &&& dims.val >= 2
    &&& dims.hue * dims.sat * dims.val * 3 <= data_len
}

/// Checks that a table with divisions `dims` (hue, saturation, value) can be
/// applied to `data_len` stored values; a table that fails is skipped.
pub fn lut_dims_valid(dims: LutDims, data_len: usize) -> (r: bool)
    ensures
        r == lut_dims_valid_spec(dims, data_len as nat),
{
    let dh = dims.hue as usize;
    let ds = dims.sat as usize;
    let dv = dims.val as usize;
    if dh < 1 || ds < 2 || dv < 2 {
        return false;
    }
    match dh.checked_mul(ds) {
        None => {
            proof {
                assert(dh * ds * dv * 3 > usize::MAX) by (nonlinear_arith)
                    requires
                        dh * ds > usize::MAX,
                        dv >= 2,
                ;
            }
            false
        },
        Some(a) => match a.checked_mul(dv) {
            None => {
                proof {
                    assert(a * dv * 3 > usize::MAX) by (nonlinear_arith)
                        requires
                            a * dv > usize::MAX,
                    ;
                }
                false
            },
            Some(b) => match b.checked_mul(3) {
                None => false,
                Some(total) => total <= data_len,
            },
        },
    }
}

/// The table a profile offers: its look table when it has look-table
/// divisions (none at all when those come without data), else its first
/// hue/saturation map, else its second, under the map divisions.
pub open spec fn offered_lut(l: DcpLayout) -> Option<(LutSource, LutDims, usize)> {
    match l.look_table_dims {
        Some(d) => match l.look_table_len {
            Some(n) => Some((LutSource::LookTable, d, n)),
            None => None,
        },
        None => match l.map_dims {
            Some(d) => match l.hue_sat_map1_len {
                Some(n) => Some((LutSource::HueSatMap1, d, n)),
                None => match l.hue_sat_map2_len {
                    Some(n) => Some((LutSource::HueSatMap2, d, n)),
                    None => None,
                },
            },
            None => None,
        },
    }
}

/// The table step of a plan: the offered table, if its divisions are usable.
pub open spec fn planned_lut(l: DcpLayout) -> Option<LutPlan> {
    match offered_lut(l) {
        Some((s, d, n)) => if lut_dims_valid_spec(d, n as nat) {
            Some(
                LutPlan {
                    source: s,
                    hue_divisions: d.hue as usize,
                    sat_divisions: d.sat as usize,
                    val_divisions: d.val as usize,
                },
            )
        } else {
            None
        },
        None => None,
    }
}

/// Points in a tone curve stored as `len` interleaved x, y values, when there
/// are enough (two) to interpolate between.
pub open spec fn tone_curve_points_spec(len: nat) -> Option<nat> {
    if len / 2 >= 2 {
        Some(len / 2)
    } else {
        None
    }
}

/// Number of (x, y) points in a tone curve of `len` values; `None` when the
/// curve has fewer than two points and is left unapplied.
pub fn tone_curve_points(len: usize) -> (r: Option<usize>)
    ensures
        r == (match tone_curve_points_spec(len as nat) {
            Some(n) => Some(n as usize),
            None => None::<usize>,
        }),
{
    let n = len / 2;
    if n < 2 {
        None
    } else {
        Some(n)
    }
}

/// The tone step of a plan: the profile's curve when it has one (skipped if
/// it has fewer than two points), else the built-in base curve.
pub open spec fn planned_tone(l: DcpLayout) -> Option<ToneCurveSource> {
    match l.tone_curve_len {
        Some(n) => if tone_curve_points_spec(n as nat) is Some {
            Some(ToneCurveSource::Profile)
        } else {
            None
        },
        None => Some(ToneCurveSource::DefaultBase),
    }
}

/// The forward matrix a profile offers, with its number of coefficients:
/// the first one when present, else the second one.
pub open spec fn offered_forward(l: DcpLayout) -> Option<(MatrixSlot, usize)> {
    match l.forward_matrix1_len {
        Some(n) => Some((MatrixSlot::First, n)),
        None => match l.forward_matrix2_len {
            Some(n) => Some((MatrixSlot::Second, n)),
            None => None,
        },
    }
}

/// The outcome of planning: refused without a forward matrix or with one
/// shorter than 3 x 3, else the forward matrix, table and tone steps.
pub open spec fn dcp_plan_spec(l: DcpLayout) -> Result<DcpPlan, DcpError> {
    match offered_forward(l) {
        None => Err(DcpError::NoForwardMatrix),
        Some((slot, n)) => if n < MATRIX_LEN {
            Err(DcpError::ForwardMatrixTooShort)
        } else {
            Ok(DcpPlan { forward: slot, lut: planned_lut(l), tone: planned_tone(l) })
        },
    }
}

/// A planned table takes its divisions from the profile axis by axis (hue,
/// saturation, value): those of the look table when the profile has look-table
/// divisions, else those of the hue/saturation maps; and a table whose
/// divisions are usable and fit its stored values is always planned.
pub proof fn lemma_plan_lut_divisions(l: DcpLayout)
    ensures
        dcp_plan_spec(l) matches Ok(p) ==> (p.lut matches Some(t) ==> (l.look_table_dims matches Some(d) ==> (t.source
            == LutSource::LookTable && t.hue_divisions == d.hue && t.sat_divisions == d.sat
            && t.val_divisions == d.val))),
        dcp_plan_spec(l) matches Ok(p) ==> (p.lut matches Some(t) ==> (l.look_table_dims is None ==> (l.map_dims matches Some(
            d,
        ) && (t.source == LutSource::HueSatMap1 || t.source == LutSource::HueSatMap2) && t.hue_divisions
            == d.hue && t.sat_divisions == d.sat && t.val_divisions == d.val))),
        dcp_plan_spec(l) matches Ok(p) ==> (p.lut matches Some(t) ==> (t.hue_divisions >= 1 && t.sat_divisions >= 2
            && t.val_divisions >= 2)),
        dcp_plan_spec(l) matches Ok(p) ==> (l.look_table_dims matches Some(d) ==> (l.look_table_len matches Some(n) ==> (d.hue >= 1 && d.sat >= 2 && d.val >= 2 && d.hue * d.sat * d.val * 3 <= n
            ==> (p.lut matches Some(t) && t.source == LutSource::LookTable
                && t.hue_divisions == d.hue && t.sat_divisions == d.sat && t.val_divisions == d.val)))),
        dcp_plan_spec(l) matches Ok(p) ==> (l.map_dims matches Some(d) ==> (l.hue_sat_map1_len matches Some(n) ==> (l.look_table_dims
            is None && d.hue >= 1 && d.sat >= 2 && d.val >= 2 && d.hue * d.sat * d.val * 3 <= n ==> (p.lut matches Some(t) && t.source == LutSource::HueSatMap1
                && t.hue_divisions == d.hue && t.sat_divisions == d.sat && t.val_divisions == d.val)))),
        dcp_plan_spec(l) matches Ok(p) ==> (l.map_dims matches Some(d) ==> (l.hue_sat_map2_len matches Some(n) ==> (l.look_table_dims
            is None && l.hue_sat_map1_len is None && d.hue >= 1 && d.sat >= 2 && d.val >= 2 && d.hue * d.sat * d.val * 3 <= n ==> (p.lut matches Some(t) && t.source == LutSource::HueSatMap2
                && t.hue_divisions == d.hue && t.sat_divisions == d.sat && t.val_divisions == d.val)))),
{
    if dcp_plan_spec(l) is Ok {
        let p = dcp_plan_spec(l)->Ok_0;
        assert(p.lut == planned_lut(l));
        match offered_lut(l) {
            Some((src, d, n)) => {
                if l.look_table_dims is Some {
                    assert(src == LutSource::LookTable && d == l.look_table_dims->Some_0 && l.look_table_len
                        == Some(n));
                } else {
                    assert(l.map_dims == Some(d));
                    if l.hue_sat_map1_len is Some {
                        assert(src == LutSource::HueSatMap1 && l.hue_sat_map1_len == Some(n));
                    } else {
                        assert(src == LutSource::HueSatMap2 && l.hue_sat_map2_len == Some(n));
                    }
                }
                if lut_dims_valid_spec(d, n as nat) {
                    assert(p.lut == Some(
                        LutPlan {
                            source: src,
                            hue_divisions: d.hue as usize,
                            sat_divisions: d.sat as usize,
                            val_divisions: d.val as usize,
                        },
                    ));
                } else {
                    assert(p.lut is None);
                }
            },
            None => {
                assert(p.lut is None);
            },
        }
    }
}

/// Decides how a DCP profile is applied, before any pixel is touched: the
/// first forward matrix if present, else the second, refused when neither
/// exists or the one in use is shorter than 3 x 3; then the table and the tone curve.
pub fn plan_dcp(layout: &DcpLayout) -> (r: Result<DcpPlan, DcpError>)
    ensures
        r == dcp_plan_spec(*layout),
        r == Err::<DcpPlan, DcpError>(DcpError::NoForwardMatrix) <==> layout.forward_matrix1_len is None
            && layout.forward_matrix2_len is None,
        layout.forward_matrix1_len matches Some(n) ==> (r is Ok <==> n >= 9),
        layout.forward_matrix1_len is None ==> (layout.forward_matrix2_len matches Some(n) ==> (r is Ok
            <==> n >= 9)),
        r matches Ok(p) ==> (p.forward == MatrixSlot::First <==> layout.forward_matrix1_len is Some),
        r matches Ok(p) ==> (layout.tone_curve_len is None ==> p.tone == Some(ToneCurveSource::DefaultBase)),
        r matches Ok(p) ==> (layout.tone_curve_len matches Some(n) ==> (n >= 4 ==> p.tone == Some(
            ToneCurveSource::Profile,
        ))),
        r matches Ok(p) ==> (layout.tone_curve_len matches Some(n) ==> (n < 4 ==> p.tone is None)),
        r matches Ok(p) ==> (p.lut matches Some(t) ==> (layout.look_table_dims matches Some(d) ==> (t.source
            == LutSource::LookTable && t.hue_divisions == d.hue && t.sat_divisions == d.sat
            && t.val_divisions == d.val))),
        r matches Ok(p) ==> (p.lut matches Some(t) ==> (layout.look_table_dims is None ==> (layout.map_dims matches Some(
            d,
        ) && (t.source == LutSource::HueSatMap1 || t.source == LutSource::HueSatMap2) && t.hue_divisions
            == d.hue && t.sat_divisions == d.sat && t.val_divisions == d.val))),
        r matches Ok(p) ==> (p.lut matches Some(t) ==> (t.hue_divisions >= 1 && t.sat_divisions >= 2
            && t.val_divisions >= 2)),
        r matches Ok(p) ==> (layout.look_table_dims matches Some(d) ==> (layout.look_table_len matches Some(n) ==> (d.hue >= 1 && d.sat >= 2 && d.val >= 2 && d.hue * d.sat * d.val * 3 <= n
            ==> (p.lut matches Some(t) && t.source == LutSource::LookTable
                && t.hue_divisions == d.hue && t.sat_divisions == d.sat && t.val_divisions == d.val)))),
        r matches Ok(p) ==> (layout.map_dims matches Some(d) ==> (layout.hue_sat_map1_len matches Some(n) ==> (layout.look_table_dims
            is None && d.hue >= 1 && d.sat >= 2 && d.val >= 2 && d.hue * d.sat * d.val * 3 <= n ==> (p.lut matches Some(t) && t.source == LutSource::HueSatMap1
                && t.hue_divisions == d.hue && t.sat_divisions == d.sat && t.val_divisions == d.val)))),
        r matches Ok(p) ==> (layout.map_dims matches Some(d) ==> (layout.hue_sat_map2_len matches Some(n) ==> (layout.look_table_dims
            is None && layout.hue_sat_map1_len is None && d.hue >= 1 && d.sat >= 2 && d.val >= 2 && d.hue * d.sat * d.val * 3 <= n ==> (p.lut matches Some(t) && t.source == LutSource::HueSatMap2
                && t.hue_divisions == d.hue && t.sat_divisions == d.sat && t.val_divisions == d.val)))),
{
    proof {
        lemma_plan_lut_divisions(*layout);
    }

    let (forward, len) = match layout.forward_matrix1_len {
        Some(n) => (MatrixSlot::First, n),
        None => match layout.forward_matrix2_len {
            Some(n) => (MatrixSlot::Second, n),
            None => return Err(DcpError::NoForwardMatrix),
        },
    };
    if len < MATRIX_LEN {
        return Err(DcpError::ForwardMatrixTooShort);
    }
    let offered: Option<(LutSource, LutDims, usize)> = match layout.look_table_dims {
        Some(d) => match layout.look_table_len {
            Some(n) => Some((LutSource::LookTable, d, n)),
            None => None,
        },
        None => match layout.map_dims {
            Some(d) => match layout.hue_sat_map1_len {
                Some(n) => Some((LutSource::HueSatMap1, d, n)),
                None => match layout.hue_sat_map2_len {
                    Some(n) => Some((LutSource::HueSatMap2, d, n)),
                    None => None,
                },
            },
            None => None,
        },
    };
    let lut = match offered {
        Some((s, d, n)) => if lut_dims_valid(d, n) {
            Some(
                LutPlan {
                    source: s,
                    hue_divisions: d.hue as usize,
                    sat_divisions: d.sat as usize,
                    val_divisions: d.val as usize,
                },
            )
        } else {
            None
        },
        None => None,
    };
    let tone = match layout.tone_curve_len {
        Some(n) => match tone_curve_points(n) {
            Some(_) => Some(ToneCurveSource::Profile),
            None => None,
        },
        None => Some(ToneCurveSource::DefaultBase),
    };
    Ok(DcpPlan { forward, lut, tone })
}

/// Position of the first value of table entry (`hv`, `sv`, `vv`) in a table
/// stored value-major, then saturation, then hue, three values per entry:
/// `((vv * ds) * dh + min(sv * dh, usize::MAX) + hv) * 3`, with the saturation
/// term saturating, or `None` where another step leaves the `usize` range.
pub open spec fn lut_entry_offset(hv: nat, sv: nat, vv: nat, dh: nat, ds: nat) -> Option<nat> {
    let max = usize::MAX as nat;
    let a = vv * ds;
    let b = a * dh;
    let sat = if sv * dh > max {
        max
    } else {
        sv * dh
    };
    let c = b + sat;
    let d = c + hv;
    let e = d * 3;
    if a > max || b > max || c > max || d > max || e > max {
        None
    } else {
        Some(e)
    }
}

/// Where table entry (`hv`, `sv`, `vv`) starts in `data_len` stored values,
/// or `None` when it does not lie wholly inside them, in which case the
/// neutral entry (no hue shift, unit scales) stands in for it.
pub fn lut_entry_index(hv: usize, sv: usize, vv: usize, dh: usize, ds: usize, data_len: usize) -> (r: Option<usize>)
    requires
        lut_entry_offset(hv as nat, sv as nat, vv as nat, dh as nat, ds as nat) matches Some(e) ==> e + 2 <= usize::MAX,
    ensures
        r == (match lut_entry_offset(hv as nat, sv as nat, vv as nat, dh as nat, ds as nat) {
            Some(e) => if e + 2 < data_len {
                Some(e as usize)
            } else {
                None::<usize>
            },
            None => None::<usize>,
        }),
{
    let sat = match sv.checked_mul(dh) {
        Some(p) => p,
        None => usize::MAX,
    };
    let idx = match vv.checked_mul(ds) {
        None => return None,
        Some(a) => match a.checked_mul(dh) {
            None => return None,
            Some(b) => match b.checked_add(sat) {
                None => return None,
                Some(c) => match c.checked_add(hv) {
                    None => return None,
                    Some(d) => match d.checked_mul(3) {
                        None => return None,
                        Some(e) => e,
                    },
                },
            },
        },
    };
    if idx + 2 < data_len {
        Some(idx)
    } else {
        None
    }
}

/// The eight table entries that surround a colour: hue wraps around, while
/// saturation and value stop at their last division.
#[derive(Debug, Clone, Copy, PartialEq, Eq, Structural)]
pub struct LutCell {
    pub h0: usize,
    pub h1: usize,
    pub s0: usize,
    pub s1: usize,
    pub v0: usize,
    pub v1: usize,
}

/// The cell of the table around grid position (`h_floor`, `s_floor`, `v_floor`),
/// the whole parts of the colour's scaled coordinates.
pub fn lut_cell(h_floor: usize, s_floor: usize, v_floor: usize, dh: usize, ds: usize, dv: usize) -> (r: LutCell)
    requires
        dh >= 1,
        ds >= 1,
        dv >= 1,
        s_floor < usize::MAX,
        v_floor < usize::MAX,
    ensures
        r.h0 == h_floor % dh,
        r.h1 == (if h_floor % dh + 1 >= dh { 0 } else { h_floor % dh + 1 }),
        r.h1 == (h_floor % dh + 1) % (dh as int),
        r.s0 == s_floor,
        r.s1 == (if s_floor + 1 <= ds - 1 { s_floor + 1 } else { ds - 1 }),
        r.v0 == v_floor,
        r.v1 == (if v_floor + 1 <= dv - 1 { v_floor + 1 } else { dv - 1 }),
        r.h0 < dh && r.h1 < dh && r.s1 < ds && r.v1 < dv,
{
    let h0 = h_floor % dh;
    let h1 = if h0 + 1 >= dh {
        0
    } else {
        h0 + 1
    };
    proof {
        if h0 + 1 >= dh {
            vstd::arithmetic::div_mod::lemma_mod_self_0(dh as int);
        } else {
            vstd::arithmetic::div_mod::lemma_small_mod((h0 + 1) as nat, dh as nat);
        }
    }
    let s1 = if s_floor + 1 <= ds - 1 {
        s_floor + 1
    } else {
        ds - 1
    };
    let v1 = if v_floor + 1 <= dv - 1 {
        v_floor + 1
    } else {
        dv - 1
    };
    LutCell { h0, h1, s0: s_floor, s1, v0: v_floor, v1 }
}

/// A table whose divisions pass the check stores every grid entry: each entry
/// inside the grid lies wholly within the stored values, so interpolation never
/// falls back to the neutral entry.
pub proof fn lemma_valid_lut_entries_stored(dims: LutDims, data_len: nat, hv: nat, sv: nat, vv: nat)
    requires
        lut_dims_valid_spec(dims, data_len),
        data_len <= usize::MAX,
        hv < dims.hue,
        sv < dims.sat,
        vv < dims.val,
    ensures
        lut_entry_offset(hv, sv, vv, dims.hue as nat, dims.sat as nat) matches Some(e) && e + 2
            < data_len && e == ((vv * dims.sat + sv) * dims.hue + hv) * 3,
{
    let dh = dims.hue as nat;
    let ds = dims.sat as nat;
    let dv = dims.val as nat;
    assert(((vv * ds + sv) * dh + hv) * 3 + 3 <= dh * ds * dv * 3) by (nonlinear_arith)
        requires
            hv < dh,
            sv < ds,
            vv < dv,
    ;
    assert(vv * ds * dh + sv * dh == (vv * ds + sv) * dh) by (nonlinear_arith);
    assert(vv * ds <= (vv * ds + sv) * dh) by (nonlinear_arith)
        requires
            dh >= 1,
    ;
    assert(vv * ds * dh <= (vv * ds + sv) * dh) by (nonlinear_arith);
    assert(sv * dh <= (vv * ds + sv) * dh) by (nonlinear_arith);
}

} // verus!
