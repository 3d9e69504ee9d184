//! The full structural grammar for board-layout files.
//!
//! [`PcbParser`] walks the token sequence of a whole file and builds a
//! [`PcbFile`]: header fields, the layer table, footprints with their pads,
//! tracks, vias, zones, texts and graphics. Unrecognized forms are skipped
//! at every nesting level, so only a structural violation inside a record
//! the parser chose to parse is an error.
//!
//! Every method's contract ties it to a spec-level parser over the
//! remaining token suffix, so the built document is exactly the one the
//! spec functions describe.

use crate::engine;
use std::collections::HashMap;
use crate::engine::ErrK;
use crate::error::KicadError;
use crate::num::Decimal;
use crate::pcb::types::{
    Footprint, FootprintV, Graphic, GraphicV, Layer, LayerV, Pad, PadV, PcbFile, PcbFileV,
    Point, PointV, Rect, RectV, Text, TextEffects, TextEffectsV, TextV, Track, TrackV, Via,
    ViaV, Zone,
    ZoneV,
};
use crate::text;
use crate::token;
use crate::token::Token;
use crate::token::TokenV;
use vstd::prelude::*;
use vstd::string::StringExecFns;

verus! {

/// A position form `(at x y [rot])` without its parentheses: the keyword
/// `at`, two coordinates, and an optional rotation that defaults to zero.
pub open spec fn spec_at(t: Seq<TokenV>) -> Result<((int, int, int), Seq<TokenV>), ErrK> {
    match engine::spec_expect(t, TokenV::Ident("at"@)) {
        Err(k) => Err(k),
        Ok(t1) => match engine::spec_number(t1) {
            Err(k) => Err(k),
            Ok((x, t2)) => match engine::spec_number(t2) {
                Err(k) => Err(k),
                Ok((y, t3)) => if t3.len() > 0 && t3[0] is Num {
                    Ok(((x, y, t3[0]->Num_0), t3.skip(1)))
                } else {
                    Ok(((x, y, 0), t3))
                },
            },
        },
    }
}

/// A point form `xy x y` without its parentheses.
pub open spec fn spec_point(t: Seq<TokenV>) -> Result<(PointV, Seq<TokenV>), ErrK> {
    match engine::spec_expect(t, TokenV::Ident("xy"@)) {
        Err(k) => Err(k),
        Ok(t1) => match engine::spec_number(t1) {
            Err(k) => Err(k),
            Ok((x, t2)) => match engine::spec_number(t2) {
                Err(k) => Err(k),
                Ok((y, t3)) => Ok((PointV { x, y }, t3)),
            },
        },
    }
}

/// One layer-table entry `(id name category [display])`. The display name
/// is present iff a fourth field precedes the closing parenthesis.
pub open spec fn spec_layer_entry(t: Seq<TokenV>) -> Result<(LayerV, Seq<TokenV>), ErrK> {
    match engine::spec_expect(t, TokenV::LParen) {
        Err(k) => Err(k),
        Ok(t1) => match engine::spec_number(t1) {
            Err(k) => Err(k),
            Ok((idv, t2)) => match engine::spec_string(t2) {
                Err(k) => Err(k),
                Ok((name, t3)) => match engine::spec_string(t3) {
                    Err(k) => Err(k),
                    Ok((lt, t4)) => {
                        let user: Option<Seq<char>> = if t4.len() > 0 && (t4[0] is Str
                            || t4[0] is Ident) {
                            match engine::spec_string(t4) {
                                Ok((u, _)) => Some(u),
                                Err(_) => None,
                            }
                        } else {
                            None
                        };
                        let t5 = if user is Some {
                            t4.skip(1)
                        } else {
                            t4
                        };
                        match engine::spec_expect(t5, TokenV::RParen) {
                            Err(k) => Err(k),
                            Ok(t6) => Ok(
                                (
                                    LayerV {
                                        id: crate::num::clamp_i32(
                                            crate::num::trunc_div_scale(idv),
                                        ) as i32,
                                        name: name,
                                        layer_type: lt,
                                        user_name: user,
                                    },
                                    t6,
                                ),
                            ),
                        }
                    },
                },
            },
        },
    }
}

pub proof fn lemma_layer_entry_len(t: Seq<TokenV>)
    ensures
        spec_layer_entry(t) is Ok ==> spec_layer_entry(t)->Ok_0.1.len() < t.len(),
{
}

/// The run of layer entries inside the layer table, appended to `acc`.
pub open spec fn spec_layer_list(t: Seq<TokenV>, acc: Seq<LayerV>) -> Result<
    (Seq<LayerV>, Seq<TokenV>),
    ErrK,
>
    decreases t.len(),
    via spec_layer_list_decreases
{
    if t.len() > 0 && t[0] is LParen {
        match spec_layer_entry(t) {
            Err(k) => Err(k),
            Ok((l, rest)) => spec_layer_list(rest, acc.push(l)),
        }
    } else {
        Ok((acc, t))
    }
}

#[via_fn]
proof fn spec_layer_list_decreases(t: Seq<TokenV>, acc: Seq<LayerV>) {
    lemma_layer_entry_len(t);
}

/// The layer mapping that a run of entries resolves to: each entry is
/// inserted in document order, so a later entry wins a shared ID.
pub open spec fn spec_layers_to_map(entries: Seq<LayerV>) -> Map<i32, LayerV>
    decreases entries.len(),
{
    if entries.len() == 0 {
        Map::empty()
    } else {
        spec_layers_to_map(entries.drop_last()).insert(entries.last().id, entries.last())
    }
}

/// The whole layer table `(layers entries... )`; the entries in order.
pub open spec fn spec_layers(t: Seq<TokenV>) -> Result<(Seq<LayerV>, Seq<TokenV>), ErrK> {
    match engine::spec_expect(t, TokenV::LParen) {
        Err(k) => Err(k),
        Ok(t1) => match engine::spec_expect(t1, TokenV::Ident("layers"@)) {
            Err(k) => Err(k),
            Ok(t2) => match spec_layer_list(t2, Seq::empty()) {
                Err(k) => Err(k),
                Ok((entries, t3)) => match engine::spec_expect(t3, TokenV::RParen) {
                    Err(k) => Err(k),
                    Ok(t4) => Ok((entries, t4)),
                },
            },
        },
    }
}

/// The run of layer names inside a pad's `(layers ...)` form, up to and
/// including the closing parenthesis.
pub open spec fn spec_name_list(t: Seq<TokenV>, acc: Seq<Seq<char>>) -> Result<
    (Seq<Seq<char>>, Seq<TokenV>),
    ErrK,
>
    decreases t.len(),
{
    if t.len() == 0 {
        Err(ErrK::Parse)
    } else if t[0] is RParen {
        Ok((acc, t.skip(1)))
    } else {
        match engine::spec_string(t) {
            Err(k) => Err(k),
            Ok((s, rest)) => spec_name_list(rest, acc.push(s)),
        }
    }
}

pub proof fn lemma_name_list_len(t: Seq<TokenV>, acc: Seq<Seq<char>>)
    ensures
        spec_name_list(t, acc) is Ok ==> spec_name_list(t, acc)->Ok_0.1.len() < t.len(),
    decreases t.len(),
{
    if t.len() > 0 && !(t[0] is RParen) {
        match engine::spec_string(t) {
            Err(_) => {},
            Ok((s, rest)) => {
                lemma_name_list_len(rest, acc.push(s));
            },
        }
    }
}

/// The optional trailing fields of a pad record, merged into `acc`, up to
/// and including the record's closing parenthesis: a drill, the layer
/// list, a net reference, a corner ratio; anything else is skipped.
pub open spec fn spec_pad_opts(t: Seq<TokenV>, acc: PadV) -> Result<(PadV, Seq<TokenV>), ErrK>
    decreases t.len(),
    via spec_pad_opts_decreases
{
    if t.len() == 0 {
        Err(ErrK::Unexpected)
    } else if t[0] is RParen {
        Ok((acc, t.skip(1)))
    } else if t[0] is LParen {
        if t.len() >= 2 && t[1] == TokenV::Ident("layers"@) {
            match spec_name_list(t.skip(2), acc.layers) {
                Err(k) => Err(k),
                Ok((names, rest)) => spec_pad_opts(rest, PadV { layers: names, ..acc }),
            }
        } else if t.len() >= 2 && t[1] == TokenV::Ident("net"@) {
            match engine::spec_number(t.skip(2)) {
                Err(k) => Err(k),
                Ok((_num, t2)) => match engine::spec_string(t2) {
                    Err(k) => Err(k),
                    Ok((name, t3)) => spec_pad_opts(
                        engine::spec_skip_form(t3, 1),
                        PadV { net: Some(name), ..acc },
                    ),
                },
            }
        } else if t.len() >= 2 && t[1] == TokenV::Ident("roundrect_rratio"@) {
            match engine::spec_number(t.skip(2)) {
                Err(k) => Err(k),
                Ok((v, t2)) => spec_pad_opts(
                    engine::spec_skip_form(t2, 1),
                    PadV { roundrect_ratio: Some(v), ..acc },
                ),
            }
        } else if t.len() >= 2 && t[1] == TokenV::Ident("drill"@) {
            let t2 = t.skip(2);
            if t2.len() > 0 && t2[0] is Num {
                spec_pad_opts(
                    engine::spec_skip_form(t2.skip(1), 1),
                    PadV { drill: Some(t2[0]->Num_0), ..acc },
                )
            } else {
                spec_pad_opts(engine::spec_skip_form(t2, 1), acc)
            }
        } else {
            spec_pad_opts(engine::spec_skip_form(t.skip(1), 1), acc)
        }
    } else {
        spec_pad_opts(t.skip(1), acc)
    }
}

#[via_fn]
proof fn spec_pad_opts_decreases(t: Seq<TokenV>, acc: PadV) {
    if t.len() > 0 && t[0] is LParen {
        lemma_name_list_len(t.skip(2), acc.layers);
        engine::lemma_skip_form_len(t.skip(2), 1);
        engine::lemma_skip_form_len(t.skip(1), 1);
        if t.len() >= 2 && t[1] == TokenV::Ident("net"@) {
            match engine::spec_number(t.skip(2)) {
                Err(_) => {},
                Ok((_num, t2)) => match engine::spec_string(t2) {
                    Err(_) => {},
                    Ok((_name, t3)) => {
                        engine::lemma_skip_form_len(t3, 1);
                    },
                },
            }
        }
        if t.len() >= 2 && t[1] == TokenV::Ident("roundrect_rratio"@) {
            match engine::spec_number(t.skip(2)) {
                Err(_) => {},
                Ok((_v, t2)) => {
                    engine::lemma_skip_form_len(t2, 1);
                },
            }
        }
        if t.len() >= 2 && t[1] == TokenV::Ident("drill"@) {
            let t2 = t.skip(2);
            if t2.len() > 0 && t2[0] is Num {
                engine::lemma_skip_form_len(t2.skip(1), 1);
            }
        }
    }
}

/// A whole pad record `(pad number kind shape (at ...) (size ...) opts...)`.
/// The kind and shape keywords and the position and size forms are
/// mandatory; the position's rotation is read and discarded.
pub open spec fn spec_pad(t: Seq<TokenV>) -> Result<(PadV, Seq<TokenV>), ErrK> {
    match engine::spec_expect(t, TokenV::LParen) {
        Err(k) => Err(k),
        Ok(t1) => match engine::spec_expect(t1, TokenV::Ident("pad"@)) {
            Err(k) => Err(k),
            Ok(t2) => match engine::spec_string(t2) {
                Err(k) => Err(k),
                Ok((number, t3)) => {
                    let kind: Option<Seq<char>> = if t3.len() > 0 && (t3[0]
                        == TokenV::Ident("thru_hole"@) || t3[0] == TokenV::Ident("smd"@)
                        || t3[0] == TokenV::Ident("np_thru_hole"@)) {
                        Some(t3[0]->Ident_0)
                    } else {
                        None
                    };
                    match kind {
                        None => Err(ErrK::Missing),
                        Some(kind) => {
                            let t4 = t3.skip(1);
                            let shape: Option<Seq<char>> = if t4.len() > 0 && (t4[0]
                                == TokenV::Ident("rect"@) || t4[0] == TokenV::Ident(
                                "circle"@,
                            ) || t4[0] == TokenV::Ident("oval"@) || t4[0]
                                == TokenV::Ident("roundrect"@)) {
                                Some(t4[0]->Ident_0)
                            } else {
                                None
                            };
                            match shape {
                                None => Err(ErrK::Missing),
                                Some(shape) => {
                                    let t5 = t4.skip(1);
                                    match engine::spec_expect(t5, TokenV::LParen) {
                                        Err(k) => Err(k),
                                        Ok(t6) => match spec_at(t6) {
                                            Err(k) => Err(k),
                                            Ok(((px, py, _rot), t7)) => match engine::spec_expect(
                                                t7,
                                                TokenV::RParen,
                                            ) {
                                                Err(k) => Err(k),
                                                Ok(t8) => match engine::spec_expect(
                                                    t8,
                                                    TokenV::LParen,
                                                ) {
                                                    Err(k) => Err(k),
                                                    Ok(t9) => match engine::spec_expect(
                                                        t9,
                                                        TokenV::Ident("size"@),
                                                    ) {
                                                        Err(k) => Err(k),
                                                        Ok(t10) => match engine::spec_number(t10) {
                                                            Err(k) => Err(k),
                                                            Ok((sx, t11)) => match engine::spec_number(
                                                                t11,
                                                            ) {
                                                                Err(k) => Err(k),
                                                                Ok((sy, t12)) => match engine::spec_expect(
                                                                    t12,
                                                                    TokenV::RParen,
                                                                ) {
                                                                    Err(k) => Err(k),
                                                                    Ok(t13) => spec_pad_opts(
                                                                        t13,
                                                                        PadV {
                                                                            number: number,
                                                                            pad_type: kind,
                                                                            shape: shape,
                                                                            position: PointV { x: px, y: py },
                                                                            size: PointV { x: sx, y: sy },
                                                                            drill: None,
                                                                            layers: Seq::empty(),
                                                                            net: None,
                                                                            roundrect_ratio: None,
                                                                        },
                                                                    ),
                                                                },
                                                            },
                                                        },
                                                    },
                                                },
                                            },
                                        },
                                    }
                                },
                            }
                        },
                    }
                },
            },
        },
    }
}

pub proof fn lemma_pad_opts_len(t: Seq<TokenV>, acc: PadV)
    ensures
        spec_pad_opts(t, acc) is Ok ==> spec_pad_opts(t, acc)->Ok_0.1.len() <= t.len(),
    decreases t.len(),
{
    if t.len() == 0 {
    } else if t[0] is RParen {
    } else if t[0] is LParen {
        if t.len() >= 2 && t[1] == TokenV::Ident("layers"@) {
            lemma_name_list_len(t.skip(2), acc.layers);
            match spec_name_list(t.skip(2), acc.layers) {
                Err(_) => {},
                Ok((names, rest)) => {
                    lemma_pad_opts_len(rest, PadV { layers: names, ..acc });
                },
            }
        } else if t.len() >= 2 && t[1] == TokenV::Ident("net"@) {
            match engine::spec_number(t.skip(2)) {
                Err(_) => {},
                Ok((_num, t2)) => match engine::spec_string(t2) {
                    Err(_) => {},
                    Ok((name, t3)) => {
                        engine::lemma_skip_form_len(t3, 1);
                        lemma_pad_opts_len(
                            engine::spec_skip_form(t3, 1),
                            PadV { net: Some(name), ..acc },
                        );
                    },
                },
            }
        } else if t.len() >= 2 && t[1] == TokenV::Ident("roundrect_rratio"@) {
            match engine::spec_number(t.skip(2)) {
                Err(_) => {},
                Ok((v, t2)) => {
                    engine::lemma_skip_form_len(t2, 1);
                    lemma_pad_opts_len(
                        engine::spec_skip_form(t2, 1),
                        PadV { roundrect_ratio: Some(v), ..acc },
                    );
                },
            }
        } else if t.len() >= 2 && t[1] == TokenV::Ident("drill"@) {
            let t2 = t.skip(2);
            if t2.len() > 0 && t2[0] is Num {
                engine::lemma_skip_form_len(t2.skip(1), 1);
                lemma_pad_opts_len(
                    engine::spec_skip_form(t2.skip(1), 1),
                    PadV { drill: Some(t2[0]->Num_0), ..acc },
                );
            } else {
                engine::lemma_skip_form_len(t2, 1);
                lemma_pad_opts_len(engine::spec_skip_form(t2, 1), acc);
            }
        } else {
            engine::lemma_skip_form_len(t.skip(1), 1);
            lemma_pad_opts_len(engine::spec_skip_form(t.skip(1), 1), acc);
        }
    } else {
        lemma_pad_opts_len(t.skip(1), acc);
    }
}

pub proof fn lemma_pad_len(t: Seq<TokenV>)
    ensures
        spec_pad(t) is Ok ==> spec_pad(t)->Ok_0.1.len() < t.len(),
{
    if spec_pad(t) is Ok {
        let t1 = engine::spec_expect(t, TokenV::LParen)->Ok_0;
        let t2 = engine::spec_expect(t1, TokenV::Ident("pad"@))->Ok_0;
        let (number, t3) = engine::spec_string(t2)->Ok_0;
        let t4 = t3.skip(1);
        let t5 = t4.skip(1);
        let t6 = engine::spec_expect(t5, TokenV::LParen)->Ok_0;
        let (_at, t7) = spec_at(t6)->Ok_0;
        let t8 = engine::spec_expect(t7, TokenV::RParen)->Ok_0;
        let t9 = engine::spec_expect(t8, TokenV::LParen)->Ok_0;
        let t10 = engine::spec_expect(t9, TokenV::Ident("size"@))->Ok_0;
        let (_sx, t11) = engine::spec_number(t10)->Ok_0;
        let (_sy, t12) = engine::spec_number(t11)->Ok_0;
        let t13 = engine::spec_expect(t12, TokenV::RParen)->Ok_0;
        let base = spec_pad(t)->Ok_0;
        assert(t13.len() < t.len());
        let kind = t3[0]->Ident_0;
        let shape = t4[0]->Ident_0;
        lemma_pad_opts_len(
            t13,
            PadV {
                number: number,
                pad_type: kind,
                shape: shape,
                position: PointV { x: spec_at(t6)->Ok_0.0.0, y: spec_at(t6)->Ok_0.0.1 },
                size: PointV { x: _sx, y: _sy },
                drill: None,
                layers: Seq::empty(),
                net: None,
                roundrect_ratio: None,
            },
        );
    }
}

/// The body items of a footprint record, merged into `acc`, up to and
/// including the record's closing parenthesis: position, layer, pads and
/// the instance id; anything else is skipped.
pub open spec fn spec_fp_items(t: Seq<TokenV>, acc: FootprintV) -> Result<
    (FootprintV, Seq<TokenV>),
    ErrK,
>
    decreases t.len(),
    via spec_fp_items_decreases
{
    if t.len() == 0 {
        Err(ErrK::Unexpected)
    } else if t[0] is RParen {
        Ok((acc, t.skip(1)))
    } else if t[0] is LParen {
        if t.len() >= 2 && t[1] == TokenV::Ident("at"@) {
            match spec_at(t.skip(1)) {
                Err(k) => Err(k),
                Ok(((x, y, rot), t2)) => spec_fp_items(
                    engine::spec_skip_form(t2, 1),
                    FootprintV { position: PointV { x, y }, rotation: rot, ..acc },
                ),
            }
        } else if t.len() >= 2 && t[1] == TokenV::Ident("layer"@) {
            match engine::spec_string(t.skip(2)) {
                Err(k) => Err(k),
                Ok((layer, t2)) => spec_fp_items(
                    engine::spec_skip_form(t2, 1),
                    FootprintV { layer: layer, ..acc },
                ),
            }
        } else if t.len() >= 2 && t[1] == TokenV::Ident("pad"@) {
            let res = spec_pad(t);
            if res is Err {
                Err(res->Err_0)
            } else {
                spec_fp_items(
                    res->Ok_0.1,
                    FootprintV { pads: acc.pads.push(res->Ok_0.0), ..acc },
                )
            }
        } else if t.len() >= 2 && t[1] == TokenV::Ident("uuid"@) {
            match engine::spec_string(t.skip(2)) {
                Err(k) => Err(k),
                Ok((uuid, t2)) => spec_fp_items(
                    engine::spec_skip_form(t2, 1),
                    FootprintV { uuid: uuid, ..acc },
                ),
            }
        } else {
            spec_fp_items(engine::spec_skip_form(t.skip(1), 1), acc)
        }
    } else if t[0] == TokenV::Ident("locked"@) {
        spec_fp_items(t.skip(1), FootprintV { locked: true, ..acc })
    } else if t[0] == TokenV::Ident("placed"@) {
        spec_fp_items(t.skip(1), FootprintV { placed: true, ..acc })
    } else if t[0] == TokenV::Ident("uuid"@) {
        match engine::spec_string(t.skip(1)) {
            Err(k) => Err(k),
            Ok((uuid, t2)) => spec_fp_items(t2, FootprintV { uuid: uuid, ..acc }),
        }
    } else {
        spec_fp_items(t.skip(1), acc)
    }
}

#[via_fn]
proof fn spec_fp_items_decreases(t: Seq<TokenV>, acc: FootprintV) {
    lemma_pad_len(t);
    engine::lemma_skip_form_len(spec_at(t.skip(1))->Ok_0.1, 1);
    engine::lemma_skip_form_len(engine::spec_string(t.skip(2))->Ok_0.1, 1);
    engine::lemma_skip_form_len(t.skip(1), 1);
}

/// A whole footprint record `(footprint name items...)`.
pub open spec fn spec_footprint(t: Seq<TokenV>) -> Result<(FootprintV, Seq<TokenV>), ErrK> {
    match engine::spec_expect(t, TokenV::LParen) {
        Err(k) => Err(k),
        Ok(t1) => match engine::spec_expect(t1, TokenV::Ident("footprint"@)) {
            Err(k) => Err(k),
            Ok(t2) => match engine::spec_string(t2) {
                Err(k) => Err(k),
                Ok((name, t3)) => spec_fp_items(
                    t3,
                    FootprintV {
                        name: name,
                        uuid: Seq::empty(),
                        position: PointV { x: 0, y: 0 },
                        rotation: 0,
                        layer: Seq::empty(),
                        locked: false,
                        placed: true,
                        properties: Map::empty(),
                        pads: Seq::empty(),
                        graphics: Seq::empty(),
                        texts: Seq::empty(),
                    },
                ),
            },
        },
    }
}

/// The run of `(xy x y)` forms inside a `pts` form, up to and including
/// the closing parenthesis of `pts`.
pub open spec fn spec_pt_list(t: Seq<TokenV>, acc: Seq<PointV>) -> Result<
    (Seq<PointV>, Seq<TokenV>),
    ErrK,
>
    decreases t.len(),
{
    if t.len() == 0 {
        Err(ErrK::Unexpected)
    } else if t[0] is RParen {
        Ok((acc, t.skip(1)))
    } else {
        match engine::spec_expect(t, TokenV::LParen) {
            Err(k) => Err(k),
            Ok(t1) => match spec_point(t1) {
                Err(k) => Err(k),
                Ok((p, t2)) => match engine::spec_expect(t2, TokenV::RParen) {
                    Err(k) => Err(k),
                    Ok(t3) => spec_pt_list(t3, acc.push(p)),
                },
            },
        }
    }
}

pub proof fn lemma_pt_list_len(t: Seq<TokenV>, acc: Seq<PointV>)
    ensures
        spec_pt_list(t, acc) is Ok ==> spec_pt_list(t, acc)->Ok_0.1.len() < t.len(),
    decreases t.len(),
{
    if t.len() > 0 && !(t[0] is RParen) {
        match engine::spec_expect(t, TokenV::LParen) {
            Err(_) => {},
            Ok(t1) => match spec_point(t1) {
                Err(_) => {},
                Ok((p, t2)) => match engine::spec_expect(t2, TokenV::RParen) {
                    Err(_) => {},
                    Ok(t3) => {
                        lemma_pt_list_len(t3, acc.push(p));
                    },
                },
            },
        }
    }
}

/// The body items of a track record, merged into `acc`, up to and
/// including the record's closing parenthesis: start, end, width, layer
/// and net; anything else is skipped.
pub open spec fn spec_track_items(t: Seq<TokenV>, acc: TrackV) -> Result<
    (TrackV, Seq<TokenV>),
    ErrK,
>
    decreases t.len(),
    via spec_track_items_decreases
{
    if t.len() == 0 {
        Err(ErrK::Unexpected)
    } else if t[0] is RParen {
        Ok((acc, t.skip(1)))
    } else if t[0] is LParen {
        if t.len() >= 2 && t[1] == TokenV::Ident("start"@) {
            match engine::spec_number(t.skip(2)) {
                Err(k) => Err(k),
                Ok((x, t2)) => match engine::spec_number(t2) {
                    Err(k) => Err(k),
                    Ok((y, t3)) => spec_track_items(
                        engine::spec_skip_form(t3, 1),
                        TrackV { start: PointV { x, y }, ..acc },
                    ),
                },
            }
        } else if t.len() >= 2 && t[1] == TokenV::Ident("end"@) {
            match engine::spec_number(t.skip(2)) {
                Err(k) => Err(k),
                Ok((x, t2)) => match engine::spec_number(t2) {
                    Err(k) => Err(k),
                    Ok((y, t3)) => spec_track_items(
                        engine::spec_skip_form(t3, 1),
                        TrackV { end: PointV { x, y }, ..acc },
                    ),
                },
            }
        } else if t.len() >= 2 && t[1] == TokenV::Ident("width"@) {
            match engine::spec_number(t.skip(2)) {
                Err(k) => Err(k),
                Ok((w, t2)) => spec_track_items(
                    engine::spec_skip_form(t2, 1),
                    TrackV { width: w, ..acc },
                ),
            }
        } else if t.len() >= 2 && t[1] == TokenV::Ident("layer"@) {
            match engine::spec_string(t.skip(2)) {
                Err(k) => Err(k),
                Ok((layer, t2)) => spec_track_items(
                    engine::spec_skip_form(t2, 1),
                    TrackV { layer: layer, ..acc },
                ),
            }
        } else if t.len() >= 2 && t[1] == TokenV::Ident("net"@) {
            match engine::spec_number(t.skip(2)) {
                Err(k) => Err(k),
                Ok((_num, t2)) => match engine::spec_string(t2) {
                    Err(k) => Err(k),
                    Ok((name, t3)) => spec_track_items(
                        engine::spec_skip_form(t3, 1),
                        TrackV { net: Some(name), ..acc },
                    ),
                },
            }
        } else {
            spec_track_items(engine::spec_skip_form(t.skip(1), 1), acc)
        }
    } else {
        spec_track_items(t.skip(1), acc)
    }
}

#[via_fn]
proof fn spec_track_items_decreases(t: Seq<TokenV>, acc: TrackV) {
    engine::lemma_skip_form_len(
        engine::spec_number(engine::spec_number(t.skip(2))->Ok_0.1)->Ok_0.1,
        1,
    );
    engine::lemma_skip_form_len(engine::spec_number(t.skip(2))->Ok_0.1, 1);
    engine::lemma_skip_form_len(engine::spec_string(t.skip(2))->Ok_0.1, 1);
    engine::lemma_skip_form_len(
        engine::spec_string(engine::spec_number(t.skip(2))->Ok_0.1)->Ok_0.1,
        1,
    );
    engine::lemma_skip_form_len(t.skip(1), 1);
}

/// A whole track record `(segment items...)`.
pub open spec fn spec_track(t: Seq<TokenV>) -> Result<(TrackV, Seq<TokenV>), ErrK> {
    match engine::spec_expect(t, TokenV::LParen) {
        Err(k) => Err(k),
        Ok(t1) => match engine::spec_expect(t1, TokenV::Ident("segment"@)) {
            Err(k) => Err(k),
            Ok(t2) => spec_track_items(
                t2,
                TrackV {
                    start: PointV { x: 0, y: 0 },
                    end: PointV { x: 0, y: 0 },
                    width: 0,
                    layer: Seq::empty(),
                    net: None,
                },
            ),
        },
    }
}

/// The body items of a via record, merged into `acc`: position, size,
/// drill, the layer pair and net; anything else is skipped. A net form
/// carrying only a number leaves the net unset.
pub open spec fn spec_via_items(t: Seq<TokenV>, acc: ViaV) -> Result<(ViaV, Seq<TokenV>), ErrK>
    decreases t.len(),
    via spec_via_items_decreases
{
    if t.len() == 0 {
        Err(ErrK::Unexpected)
    } else if t[0] is RParen {
        Ok((acc, t.skip(1)))
    } else if t[0] is LParen {
        if t.len() >= 2 && t[1] == TokenV::Ident("at"@) {
            match spec_at(t.skip(1)) {
                Err(k) => Err(k),
                Ok(((x, y, _rot), t2)) => spec_via_items(
                    engine::spec_skip_form(t2, 1),
                    ViaV { position: PointV { x, y }, ..acc },
                ),
            }
        } else if t.len() >= 2 && t[1] == TokenV::Ident("size"@) {
            match engine::spec_number(t.skip(2)) {
                Err(k) => Err(k),
                Ok((v, t2)) => spec_via_items(
                    engine::spec_skip_form(t2, 1),
                    ViaV { size: v, ..acc },
                ),
            }
        } else if t.len() >= 2 && t[1] == TokenV::Ident("drill"@) {
            match engine::spec_number(t.skip(2)) {
                Err(k) => Err(k),
                Ok((v, t2)) => spec_via_items(
                    engine::spec_skip_form(t2, 1),
                    ViaV { drill: v, ..acc },
                ),
            }
        } else if t.len() >= 2 && t[1] == TokenV::Ident("layers"@) {
            match spec_name_list(t.skip(2), acc.layers) {
                Err(k) => Err(k),
                Ok((names, rest)) => spec_via_items(rest, ViaV { layers: names, ..acc }),
            }
        } else if t.len() >= 2 && t[1] == TokenV::Ident("net"@) {
            match engine::spec_number(t.skip(2)) {
                Err(k) => Err(k),
                Ok((_num, t2)) => {
                    if t2.len() > 0 && (t2[0] is Str || t2[0] is Ident) {
                        match engine::spec_string(t2) {
                            Err(k) => Err(k),
                            Ok((name, t3)) => spec_via_items(
                                engine::spec_skip_form(t3, 1),
                                ViaV { net: Some(name), ..acc },
                            ),
                        }
                    } else {
                        spec_via_items(engine::spec_skip_form(t2, 1), acc)
                    }
                },
            }
        } else {
            spec_via_items(engine::spec_skip_form(t.skip(1), 1), acc)
        }
    } else {
        spec_via_items(t.skip(1), acc)
    }
}

#[via_fn]
proof fn spec_via_items_decreases(t: Seq<TokenV>, acc: ViaV) {
    engine::lemma_skip_form_len(spec_at(t.skip(1))->Ok_0.1, 1);
    engine::lemma_skip_form_len(engine::spec_number(t.skip(2))->Ok_0.1, 1);
    lemma_name_list_len(t.skip(2), acc.layers);
    engine::lemma_skip_form_len(
        engine::spec_string(engine::spec_number(t.skip(2))->Ok_0.1)->Ok_0.1,
        1,
    );
    engine::lemma_skip_form_len(t.skip(1), 1);
}

/// A whole via record `(via items...)`.
pub open spec fn spec_via(t: Seq<TokenV>) -> Result<(ViaV, Seq<TokenV>), ErrK> {
    match engine::spec_expect(t, TokenV::LParen) {
        Err(k) => Err(k),
        Ok(t1) => match engine::spec_expect(t1, TokenV::Ident("via"@)) {
            Err(k) => Err(k),
            Ok(t2) => spec_via_items(
                t2,
                ViaV {
                    position: PointV { x: 0, y: 0 },
                    size: 0,
                    drill: 0,
                    layers: Seq::empty(),
                    net: None,
                },
            ),
        },
    }
}

/// The body items of a zone record, merged into `acc`: net name, layer,
/// priority, pad connection and the bounding polygon; anything else is
/// skipped. A pad connection form counts as connected iff its first field
/// is the identifier `yes`.
pub open spec fn spec_zone_items(t: Seq<TokenV>, acc: ZoneV) -> Result<
    (ZoneV, Seq<TokenV>),
    ErrK,
>
    decreases t.len(),
    via spec_zone_items_decreases
{
    if t.len() == 0 {
        Err(ErrK::Unexpected)
    } else if t[0] is RParen {
        Ok((acc, t.skip(1)))
    } else if t[0] is LParen {
        if t.len() >= 2 && t[1] == TokenV::Ident("net_name"@) {
            match engine::spec_string(t.skip(2)) {
                Err(k) => Err(k),
                Ok((name, t2)) => spec_zone_items(
                    engine::spec_skip_form(t2, 1),
                    ZoneV { net: Some(name), ..acc },
                ),
            }
        } else if t.len() >= 2 && t[1] == TokenV::Ident("layer"@) {
            match engine::spec_string(t.skip(2)) {
                Err(k) => Err(k),
                Ok((layer, t2)) => spec_zone_items(
                    engine::spec_skip_form(t2, 1),
                    ZoneV { layer: layer, ..acc },
                ),
            }
        } else if t.len() >= 2 && t[1] == TokenV::Ident("priority"@) {
            match engine::spec_number(t.skip(2)) {
                Err(k) => Err(k),
                Ok((v, t2)) => spec_zone_items(
                    engine::spec_skip_form(t2, 1),
                    ZoneV {
                        priority: crate::num::clamp_i32(
                            crate::num::trunc_div_scale(v),
                        ) as i32,
                        ..acc
                    },
                ),
            }
        } else if t.len() >= 2 && t[1] == TokenV::Ident("connect_pads"@) {
            let yes = t.len() >= 3 && t[2] == TokenV::Ident("yes"@);
            spec_zone_items(
                engine::spec_skip_form(t.skip(2), 1),
                ZoneV { connect_pads: yes, ..acc },
            )
        } else if t.len() >= 2 && t[1] == TokenV::Ident("polygon"@) {
            match engine::spec_expect(t.skip(2), TokenV::LParen) {
                Err(k) => Err(k),
                Ok(t2) => match engine::spec_expect(t2, TokenV::Ident("pts"@)) {
                    Err(k) => Err(k),
                    Ok(t3) => match spec_pt_list(t3, Seq::empty()) {
                        Err(k) => Err(k),
                        Ok((pts, t4)) => spec_zone_items(
                            engine::spec_skip_form(t4, 1),
                            ZoneV { polygon: pts, ..acc },
                        ),
                    },
                },
            }
        } else {
            spec_zone_items(engine::spec_skip_form(t.skip(1), 1), acc)
        }
    } else {
        spec_zone_items(t.skip(1), acc)
    }
}

#[via_fn]
proof fn spec_zone_items_decreases(t: Seq<TokenV>, acc: ZoneV) {
    engine::lemma_skip_form_len(engine::spec_string(t.skip(2))->Ok_0.1, 1);
    engine::lemma_skip_form_len(engine::spec_number(t.skip(2))->Ok_0.1, 1);
    engine::lemma_skip_form_len(t.skip(2), 1);
    lemma_pt_list_len(t.skip(4), Seq::empty());
    engine::lemma_skip_form_len(spec_pt_list(t.skip(4), Seq::empty())->Ok_0.1, 1);
    engine::lemma_skip_form_len(t.skip(1), 1);
    if t.len() >= 4 {
        assert(t.skip(2).skip(1) =~= t.skip(3));
        assert(t.skip(3).skip(1) =~= t.skip(4));
    }
}

/// A whole zone record `(zone items...)`.
pub open spec fn spec_zone(t: Seq<TokenV>) -> Result<(ZoneV, Seq<TokenV>), ErrK> {
    match engine::spec_expect(t, TokenV::LParen) {
        Err(k) => Err(k),
        Ok(t1) => match engine::spec_expect(t1, TokenV::Ident("zone"@)) {
            Err(k) => Err(k),
            Ok(t2) => spec_zone_items(
                t2,
                ZoneV {
                    net: None,
                    layer: Seq::empty(),
                    priority: 0,
                    connect_pads: false,
                    polygon: Seq::empty(),
                },
            ),
        },
    }
}

/// The fields a graphic or text record can carry, while its body is read.
pub struct GrParts {
    pub start: Point,
    pub end: Point,
    pub width: Decimal,
    pub layer: String,
    pub pts: Vec<Point>,
    pub filled: bool,
}

pub ghost struct GrPartsV {
    pub start: PointV,
    pub end: PointV,
    pub width: int,
    pub layer: Seq<char>,
    pub pts: Seq<PointV>,
    pub filled: bool,
}

impl View for GrParts {
    type V = GrPartsV;

    open spec fn view(&self) -> GrPartsV {
        GrPartsV {
            start: self.start@,
            end: self.end@,
            width: self.width@,
            layer: self.layer@,
            pts: self.pts.deep_view(),
            filled: self.filled,
        }
    }
}

/// An empty set of graphic fields.
pub open spec fn spec_gr_parts_empty() -> GrPartsV {
    GrPartsV {
        start: PointV { x: 0, y: 0 },
        end: PointV { x: 0, y: 0 },
        width: 0,
        layer: Seq::empty(),
        pts: Seq::empty(),
        filled: false,
    }
}

/// The body items of a graphic or text record, merged into `acc`:
/// position, start, end, width, layer, a point list and a fill flag;
/// anything else is skipped. A fill form counts as filled iff its first
/// field is the identifier `yes` or `solid`.
pub open spec fn spec_gr_items(t: Seq<TokenV>, acc: GrPartsV) -> Result<
    (GrPartsV, Seq<TokenV>),
    ErrK,
>
    decreases t.len(),
    via spec_gr_items_decreases
{
    if t.len() == 0 {
        Err(ErrK::Unexpected)
    } else if t[0] is RParen {
        Ok((acc, t.skip(1)))
    } else if t[0] is LParen {
        if t.len() >= 2 && t[1] == TokenV::Ident("start"@) {
            match engine::spec_number(t.skip(2)) {
                Err(k) => Err(k),
                Ok((x, t2)) => match engine::spec_number(t2) {
                    Err(k) => Err(k),
                    Ok((y, t3)) => spec_gr_items(
                        engine::spec_skip_form(t3, 1),
                        GrPartsV { start: PointV { x, y }, ..acc },
                    ),
                },
            }
        } else if t.len() >= 2 && t[1] == TokenV::Ident("end"@) {
            match engine::spec_number(t.skip(2)) {
                Err(k) => Err(k),
                Ok((x, t2)) => match engine::spec_number(t2) {
                    Err(k) => Err(k),
                    Ok((y, t3)) => spec_gr_items(
                        engine::spec_skip_form(t3, 1),
                        GrPartsV { end: PointV { x, y }, ..acc },
                    ),
                },
            }
        } else if t.len() >= 2 && t[1] == TokenV::Ident("at"@) {
            match spec_at(t.skip(1)) {
                Err(k) => Err(k),
                Ok(((x, y, _rot), t2)) => spec_gr_items(
                    engine::spec_skip_form(t2, 1),
                    GrPartsV { start: PointV { x, y }, ..acc },
                ),
            }
        } else if t.len() >= 2 && t[1] == TokenV::Ident("width"@) {
            match engine::spec_number(t.skip(2)) {
                Err(k) => Err(k),
                Ok((w, t2)) => spec_gr_items(
                    engine::spec_skip_form(t2, 1),
                    GrPartsV { width: w, ..acc },
                ),
            }
        } else if t.len() >= 2 && t[1] == TokenV::Ident("layer"@) {
            match engine::spec_string(t.skip(2)) {
                Err(k) => Err(k),
                Ok((layer, t2)) => spec_gr_items(
                    engine::spec_skip_form(t2, 1),
                    GrPartsV { layer: layer, ..acc },
                ),
            }
        } else if t.len() >= 2 && t[1] == TokenV::Ident("pts"@) {
            match spec_pt_list(t.skip(2), Seq::empty()) {
                Err(k) => Err(k),
                Ok((pts, rest)) => spec_gr_items(rest, GrPartsV { pts: pts, ..acc }),
            }
        } else if t.len() >= 2 && t[1] == TokenV::Ident("fill"@) {
            let yes = t.len() >= 3 && (t[2] == TokenV::Ident("yes"@) || t[2]
                == TokenV::Ident("solid"@));
            spec_gr_items(
                engine::spec_skip_form(t.skip(2), 1),
                GrPartsV { filled: yes, ..acc },
            )
        } else {
            spec_gr_items(engine::spec_skip_form(t.skip(1), 1), acc)
        }
    } else {
        spec_gr_items(t.skip(1), acc)
    }
}

#[via_fn]
proof fn spec_gr_items_decreases(t: Seq<TokenV>, acc: GrPartsV) {
    engine::lemma_skip_form_len(
        engine::spec_number(engine::spec_number(t.skip(2))->Ok_0.1)->Ok_0.1,
        1,
    );
    engine::lemma_skip_form_len(engine::spec_number(t.skip(2))->Ok_0.1, 1);
    engine::lemma_skip_form_len(engine::spec_string(t.skip(2))->Ok_0.1, 1);
    engine::lemma_skip_form_len(spec_at(t.skip(1))->Ok_0.1, 1);
    lemma_pt_list_len(t.skip(2), Seq::empty());
    engine::lemma_skip_form_len(t.skip(2), 1);
    engine::lemma_skip_form_len(t.skip(1), 1);
}

/// The default styling of a text annotation: nothing interpreted.
pub open spec fn spec_effects_default() -> TextEffectsV {
    TextEffectsV {
        font_size: PointV { x: 0, y: 0 },
        thickness: 0,
        bold: false,
        italic: false,
        justify: None,
    }
}

/// A graphic line record `(gr_line items...)`.
pub open spec fn spec_gr_line(t: Seq<TokenV>) -> Result<(GraphicV, Seq<TokenV>), ErrK> {
    match engine::spec_expect(t, TokenV::LParen) {
        Err(k) => Err(k),
        Ok(t1) => match engine::spec_expect(t1, TokenV::Ident("gr_line"@)) {
            Err(k) => Err(k),
            Ok(t2) => match spec_gr_items(t2, spec_gr_parts_empty()) {
                Err(k) => Err(k),
                Ok((g, rest)) => Ok(
                    (
                        GraphicV::Line {
                            start: g.start,
                            end: g.end,
                            layer: g.layer,
                            width: g.width,
                        },
                        rest,
                    ),
                ),
            },
        },
    }
}

/// A graphic rectangle record `(gr_rect items...)`.
pub open spec fn spec_gr_rect(t: Seq<TokenV>) -> Result<(GraphicV, Seq<TokenV>), ErrK> {
    match engine::spec_expect(t, TokenV::LParen) {
        Err(k) => Err(k),
        Ok(t1) => match engine::spec_expect(t1, TokenV::Ident("gr_rect"@)) {
            Err(k) => Err(k),
            Ok(t2) => match spec_gr_items(t2, spec_gr_parts_empty()) {
                Err(k) => Err(k),
                Ok((g, rest)) => Ok(
                    (
                        GraphicV::Rectangle {
                            rect: crate::pcb::types::RectV { start: g.start, end: g.end },
                            layer: g.layer,
                            width: g.width,
                            filled: g.filled,
                        },
                        rest,
                    ),
                ),
            },
        },
    }
}

/// A graphic polygon record `(gr_poly items...)`.
pub open spec fn spec_gr_poly(t: Seq<TokenV>) -> Result<(GraphicV, Seq<TokenV>), ErrK> {
    match engine::spec_expect(t, TokenV::LParen) {
        Err(k) => Err(k),
        Ok(t1) => match engine::spec_expect(t1, TokenV::Ident("gr_poly"@)) {
            Err(k) => Err(k),
            Ok(t2) => match spec_gr_items(t2, spec_gr_parts_empty()) {
                Err(k) => Err(k),
                Ok((g, rest)) => Ok(
                    (
                        GraphicV::Polygon {
                            points: g.pts,
                            layer: g.layer,
                            width: g.width,
                            filled: g.filled,
                        },
                        rest,
                    ),
                ),
            },
        },
    }
}

/// A text record `(gr_text "text" items...)`; styling is not interpreted.
pub open spec fn spec_gr_text(t: Seq<TokenV>) -> Result<(TextV, Seq<TokenV>), ErrK> {
    match engine::spec_expect(t, TokenV::LParen) {
        Err(k) => Err(k),
        Ok(t1) => match engine::spec_expect(t1, TokenV::Ident("gr_text"@)) {
            Err(k) => Err(k),
            Ok(t2) => match engine::spec_string(t2) {
                Err(k) => Err(k),
                Ok((txt, t3)) => match spec_gr_items(t3, spec_gr_parts_empty()) {
                    Err(k) => Err(k),
                    Ok((g, rest)) => Ok(
                        (
                            TextV {
                                text: txt,
                                position: g.start,
                                layer: g.layer,
                                effects: spec_effects_default(),
                            },
                            rest,
                        ),
                    ),
                },
            },
        },
    }
}

pub proof fn lemma_layer_list_len(t: Seq<TokenV>, acc: Seq<LayerV>)
    ensures
        spec_layer_list(t, acc) is Ok ==> spec_layer_list(t, acc)->Ok_0.1.len() <= t.len(),
    decreases t.len(),
{
    if t.len() > 0 && t[0] is LParen {
        lemma_layer_entry_len(t);
        match spec_layer_entry(t) {
            Err(_) => {},
            Ok((l, rest)) => {
                lemma_layer_list_len(rest, acc.push(l));
            },
        }
    }
}

pub proof fn lemma_layers_len(t: Seq<TokenV>)
    ensures
        spec_layers(t) is Ok ==> spec_layers(t)->Ok_0.1.len() < t.len(),
{
    if spec_layers(t) is Ok {
        lemma_layer_list_len(t.skip(2), Seq::empty());
        assert(engine::spec_expect(t, TokenV::LParen)->Ok_0 =~= t.skip(1));
        assert(t.skip(1).skip(1) =~= t.skip(2));
    }
}

pub proof fn lemma_fp_items_len(t: Seq<TokenV>, acc: FootprintV)
    ensures
        spec_fp_items(t, acc) is Ok ==> spec_fp_items(t, acc)->Ok_0.1.len() <= t.len(),
    decreases t.len(),
{
    lemma_pad_len(t);
    engine::lemma_skip_form_len(spec_at(t.skip(1))->Ok_0.1, 1);
    engine::lemma_skip_form_len(engine::spec_string(t.skip(2))->Ok_0.1, 1);
    engine::lemma_skip_form_len(t.skip(1), 1);
    if t.len() == 0 {
    } else if t[0] is RParen {
    } else if t[0] is LParen {
        if t.len() >= 2 && t[1] == TokenV::Ident("at"@) {
            match spec_at(t.skip(1)) {
                Err(_) => {},
                Ok(((x, y, rot), t2)) => {
                    lemma_fp_items_len(
                        engine::spec_skip_form(t2, 1),
                        FootprintV { position: PointV { x, y }, rotation: rot, ..acc },
                    );
                },
            }
        } else if t.len() >= 2 && t[1] == TokenV::Ident("layer"@) {
            match engine::spec_string(t.skip(2)) {
                Err(_) => {},
                Ok((layer, t2)) => {
                    lemma_fp_items_len(
                        engine::spec_skip_form(t2, 1),
                        FootprintV { layer: layer, ..acc },
                    );
                },
            }
        } else if t.len() >= 2 && t[1] == TokenV::Ident("pad"@) {
            let res = spec_pad(t);
            if res is Ok {
                lemma_fp_items_len(
                    res->Ok_0.1,
                    FootprintV { pads: acc.pads.push(res->Ok_0.0), ..acc },
                );
            }
        } else if t.len() >= 2 && t[1] == TokenV::Ident("uuid"@) {
            match engine::spec_string(t.skip(2)) {
                Err(_) => {},
                Ok((uuid, t2)) => {
                    lemma_fp_items_len(
                        engine::spec_skip_form(t2, 1),
                        FootprintV { uuid: uuid, ..acc },
                    );
                },
            }
        } else {
            lemma_fp_items_len(engine::spec_skip_form(t.skip(1), 1), acc);
        }
    } else if t[0] == TokenV::Ident("locked"@) {
        lemma_fp_items_len(t.skip(1), FootprintV { locked: true, ..acc });
    } else if t[0] == TokenV::Ident("placed"@) {
        lemma_fp_items_len(t.skip(1), FootprintV { placed: true, ..acc });
    } else if t[0] == TokenV::Ident("uuid"@) {
        match engine::spec_string(t.skip(1)) {
            Err(_) => {},
            Ok((uuid, t2)) => {
                lemma_fp_items_len(t2, FootprintV { uuid: uuid, ..acc });
            },
        }
    } else {
        lemma_fp_items_len(t.skip(1), acc);
    }
}

pub proof fn lemma_footprint_len(t: Seq<TokenV>)
    ensures
        spec_footprint(t) is Ok ==> spec_footprint(t)->Ok_0.1.len() < t.len(),
{
    if spec_footprint(t) is Ok {
        let t1 = engine::spec_expect(t, TokenV::LParen)->Ok_0;
        let t2 = engine::spec_expect(t1, TokenV::Ident("footprint"@))->Ok_0;
        let (name, t3) = engine::spec_string(t2)->Ok_0;
        lemma_fp_items_len(
            t3,
            FootprintV {
                name: name,
                uuid: Seq::empty(),
                position: PointV { x: 0, y: 0 },
                rotation: 0,
                layer: Seq::empty(),
                locked: false,
                placed: true,
                properties: Map::empty(),
                pads: Seq::empty(),
                graphics: Seq::empty(),
                texts: Seq::empty(),
            },
        );
    }
}

pub proof fn lemma_track_items_len(t: Seq<TokenV>, acc: TrackV)
    ensures
        spec_track_items(t, acc) is Ok ==> spec_track_items(t, acc)->Ok_0.1.len() <= t.len(),
    decreases t.len(),
{
    engine::lemma_skip_form_len(
        engine::spec_number(engine::spec_number(t.skip(2))->Ok_0.1)->Ok_0.1,
        1,
    );
    engine::lemma_skip_form_len(engine::spec_number(t.skip(2))->Ok_0.1, 1);
    engine::lemma_skip_form_len(engine::spec_string(t.skip(2))->Ok_0.1, 1);
    engine::lemma_skip_form_len(
        engine::spec_string(engine::spec_number(t.skip(2))->Ok_0.1)->Ok_0.1,
        1,
    );
    engine::lemma_skip_form_len(t.skip(1), 1);
    if t.len() == 0 {
    } else if t[0] is RParen {
    } else if t[0] is LParen {
        if t.len() >= 2 && t[1] == TokenV::Ident("start"@) {
            match engine::spec_number(t.skip(2)) {
                Err(_) => {},
                Ok((x, t2)) => match engine::spec_number(t2) {
                    Err(_) => {},
                    Ok((y, t3)) => {
                        lemma_track_items_len(
                            engine::spec_skip_form(t3, 1),
                            TrackV { start: PointV { x, y }, ..acc },
                        );
                    },
                },
            }
        } else if t.len() >= 2 && t[1] == TokenV::Ident("end"@) {
            match engine::spec_number(t.skip(2)) {
                Err(_) => {},
                Ok((x, t2)) => match engine::spec_number(t2) {
                    Err(_) => {},
                    Ok((y, t3)) => {
                        lemma_track_items_len(
                            engine::spec_skip_form(t3, 1),
                            TrackV { end: PointV { x, y }, ..acc },
                        );
                    },
                },
            }
        } else if t.len() >= 2 && t[1] == TokenV::Ident("width"@) {
            match engine::spec_number(t.skip(2)) {
                Err(_) => {},
                Ok((w, t2)) => {
                    lemma_track_items_len(
                        engine::spec_skip_form(t2, 1),
                        TrackV { width: w, ..acc },
                    );
                },
            }
        } else if t.len() >= 2 && t[1] == TokenV::Ident("layer"@) {
            match engine::spec_string(t.skip(2)) {
                Err(_) => {},
                Ok((layer, t2)) => {
                    lemma_track_items_len(
                        engine::spec_skip_form(t2, 1),
                        TrackV { layer: layer, ..acc },
                    );
                },
            }
        } else if t.len() >= 2 && t[1] == TokenV::Ident("net"@) {
            match engine::spec_number(t.skip(2)) {
                Err(_) => {},
                Ok((_num, t2)) => match engine::spec_string(t2) {
                    Err(_) => {},
                    Ok((name, t3)) => {
                        lemma_track_items_len(
                            engine::spec_skip_form(t3, 1),
                            TrackV { net: Some(name), ..acc },
                        );
                    },
                },
            }
        } else {
            lemma_track_items_len(engine::spec_skip_form(t.skip(1), 1), acc);
        }
    } else {
        lemma_track_items_len(t.skip(1), acc);
    }
}

pub proof fn lemma_track_len(t: Seq<TokenV>)
    ensures
        spec_track(t) is Ok ==> spec_track(t)->Ok_0.1.len() < t.len(),
{
    if spec_track(t) is Ok {
        assert(engine::spec_expect(t, TokenV::LParen)->Ok_0 =~= t.skip(1));
        assert(t.skip(1).skip(1) =~= t.skip(2));
        lemma_track_items_len(
            t.skip(2),
            TrackV {
                start: PointV { x: 0, y: 0 },
                end: PointV { x: 0, y: 0 },
                width: 0,
                layer: Seq::empty(),
                net: None,
            },
        );
    }
}

pub proof fn lemma_via_items_len(t: Seq<TokenV>, acc: ViaV)
    ensures
        spec_via_items(t, acc) is Ok ==> spec_via_items(t, acc)->Ok_0.1.len() <= t.len(),
    decreases t.len(),
{
    engine::lemma_skip_form_len(spec_at(t.skip(1))->Ok_0.1, 1);
    engine::lemma_skip_form_len(engine::spec_number(t.skip(2))->Ok_0.1, 1);
    lemma_name_list_len(t.skip(2), acc.layers);
    engine::lemma_skip_form_len(
        engine::spec_string(engine::spec_number(t.skip(2))->Ok_0.1)->Ok_0.1,
        1,
    );
    engine::lemma_skip_form_len(t.skip(1), 1);
    if t.len() == 0 {
    } else if t[0] is RParen {
    } else if t[0] is LParen {
        if t.len() >= 2 && t[1] == TokenV::Ident("at"@) {
            match spec_at(t.skip(1)) {
                Err(_) => {},
                Ok(((x, y, _rot), t2)) => {
                    lemma_via_items_len(
                        engine::spec_skip_form(t2, 1),
                        ViaV { position: PointV { x, y }, ..acc },
                    );
                },
            }
        } else if t.len() >= 2 && t[1] == TokenV::Ident("size"@) {
            match engine::spec_number(t.skip(2)) {
                Err(_) => {},
                Ok((v, t2)) => {
                    lemma_via_items_len(
                        engine::spec_skip_form(t2, 1),
                        ViaV { size: v, ..acc },
                    );
                },
            }
        } else if t.len() >= 2 && t[1] == TokenV::Ident("drill"@) {
            match engine::spec_number(t.skip(2)) {
                Err(_) => {},
                Ok((v, t2)) => {
                    lemma_via_items_len(
                        engine::spec_skip_form(t2, 1),
                        ViaV { drill: v, ..acc },
                    );
                },
            }
        } else if t.len() >= 2 && t[1] == TokenV::Ident("layers"@) {
            match spec_name_list(t.skip(2), acc.layers) {
                Err(_) => {},
                Ok((names, rest)) => {
                    lemma_via_items_len(rest, ViaV { layers: names, ..acc });
                },
            }
        } else if t.len() >= 2 && t[1] == TokenV::Ident("net"@) {
            match engine::spec_number(t.skip(2)) {
                Err(_) => {},
                Ok((_num, t2)) => {
                    if t2.len() > 0 && (t2[0] is Str || t2[0] is Ident) {
                        match engine::spec_string(t2) {
                            Err(_) => {},
                            Ok((name, t3)) => {
                                lemma_via_items_len(
                                    engine::spec_skip_form(t3, 1),
                                    ViaV { net: Some(name), ..acc },
                                );
                            },
                        }
                    } else {
                        lemma_via_items_len(engine::spec_skip_form(t2, 1), acc);
                    }
                },
            }
        } else {
            lemma_via_items_len(engine::spec_skip_form(t.skip(1), 1), acc);
        }
    } else {
        lemma_via_items_len(t.skip(1), acc);
    }
}

pub proof fn lemma_via_len(t: Seq<TokenV>)
    ensures
        spec_via(t) is Ok ==> spec_via(t)->Ok_0.1.len() < t.len(),
{
    if spec_via(t) is Ok {
        assert(engine::spec_expect(t, TokenV::LParen)->Ok_0 =~= t.skip(1));
        assert(t.skip(1).skip(1) =~= t.skip(2));
        lemma_via_items_len(
            t.skip(2),
            ViaV {
                position: PointV { x: 0, y: 0 },
                size: 0,
                drill: 0,
                layers: Seq::empty(),
                net: None,
            },
        );
    }
}

pub proof fn lemma_zone_items_len(t: Seq<TokenV>, acc: ZoneV)
    ensures
        spec_zone_items(t, acc) is Ok ==> spec_zone_items(t, acc)->Ok_0.1.len() <= t.len(),
    decreases t.len(),
{
    engine::lemma_skip_form_len(engine::spec_string(t.skip(2))->Ok_0.1, 1);
    engine::lemma_skip_form_len(engine::spec_number(t.skip(2))->Ok_0.1, 1);
    engine::lemma_skip_form_len(t.skip(2), 1);
    lemma_pt_list_len(t.skip(4), Seq::empty());
    engine::lemma_skip_form_len(spec_pt_list(t.skip(4), Seq::empty())->Ok_0.1, 1);
    engine::lemma_skip_form_len(t.skip(1), 1);
    if t.len() >= 4 {
        assert(t.skip(2).skip(1) =~= t.skip(3));
        assert(t.skip(3).skip(1) =~= t.skip(4));
    }
    if t.len() == 0 {
    } else if t[0] is RParen {
    } else if t[0] is LParen {
        if t.len() >= 2 && t[1] == TokenV::Ident("net_name"@) {
            match engine::spec_string(t.skip(2)) {
                Err(_) => {},
                Ok((name, t2)) => {
                    lemma_zone_items_len(
                        engine::spec_skip_form(t2, 1),
                        ZoneV { net: Some(name), ..acc },
                    );
                },
            }
        } else if t.len() >= 2 && t[1] == TokenV::Ident("layer"@) {
            match engine::spec_string(t.skip(2)) {
                Err(_) => {},
                Ok((layer, t2)) => {
                    lemma_zone_items_len(
                        engine::spec_skip_form(t2, 1),
                        ZoneV { layer: layer, ..acc },
                    );
                },
            }
        } else if t.len() >= 2 && t[1] == TokenV::Ident("priority"@) {
            match engine::spec_number(t.skip(2)) {
                Err(_) => {},
                Ok((v, t2)) => {
                    lemma_zone_items_len(
                        engine::spec_skip_form(t2, 1),
                        ZoneV {
                            priority: crate::num::clamp_i32(
                                crate::num::trunc_div_scale(v),
                            ) as i32,
                            ..acc
                        },
                    );
                },
            }
        } else if t.len() >= 2 && t[1] == TokenV::Ident("connect_pads"@) {
            let yes = t.len() >= 3 && t[2] == TokenV::Ident("yes"@);
            lemma_zone_items_len(
                engine::spec_skip_form(t.skip(2), 1),
                ZoneV { connect_pads: yes, ..acc },
            );
        } else if t.len() >= 2 && t[1] == TokenV::Ident("polygon"@) {
            match engine::spec_expect(t.skip(2), TokenV::LParen) {
                Err(_) => {},
                Ok(t2) => match engine::spec_expect(t2, TokenV::Ident("pts"@)) {
                    Err(_) => {},
                    Ok(t3) => match spec_pt_list(t3, Seq::empty()) {
                        Err(_) => {},
                        Ok((pts, t4)) => {
                            engine::lemma_skip_form_len(t4, 1);
                            lemma_pt_list_len(t3, Seq::empty());
                            lemma_zone_items_len(
                                engine::spec_skip_form(t4, 1),
                                ZoneV { polygon: pts, ..acc },
                            );
                        },
                    },
                },
            }
        } else {
            lemma_zone_items_len(engine::spec_skip_form(t.skip(1), 1), acc);
        }
    } else {
        lemma_zone_items_len(t.skip(1), acc);
    }
}

pub proof fn lemma_zone_len(t: Seq<TokenV>)
    ensures
        spec_zone(t) is Ok ==> spec_zone(t)->Ok_0.1.len() < t.len(),
{
    if spec_zone(t) is Ok {
        assert(engine::spec_expect(t, TokenV::LParen)->Ok_0 =~= t.skip(1));
        assert(t.skip(1).skip(1) =~= t.skip(2));
        lemma_zone_items_len(
            t.skip(2),
            ZoneV {
                net: None,
                layer: Seq::empty(),
                priority: 0,
                connect_pads: false,
                polygon: Seq::empty(),
            },
        );
    }
}

pub proof fn lemma_gr_items_len(t: Seq<TokenV>, acc: GrPartsV)
    ensures
        spec_gr_items(t, acc) is Ok ==> spec_gr_items(t, acc)->Ok_0.1.len() <= t.len(),
    decreases t.len(),
{
    engine::lemma_skip_form_len(
        engine::spec_number(engine::spec_number(t.skip(2))->Ok_0.1)->Ok_0.1,
        1,
    );
    engine::lemma_skip_form_len(engine::spec_number(t.skip(2))->Ok_0.1, 1);
    engine::lemma_skip_form_len(engine::spec_string(t.skip(2))->Ok_0.1, 1);
    engine::lemma_skip_form_len(spec_at(t.skip(1))->Ok_0.1, 1);
    lemma_pt_list_len(t.skip(2), Seq::empty());
    engine::lemma_skip_form_len(t.skip(2), 1);
    engine::lemma_skip_form_len(t.skip(1), 1);
    if t.len() == 0 {
    } else if t[0] is RParen {
    } else if t[0] is LParen {
        if t.len() >= 2 && t[1] == TokenV::Ident("start"@) {
            match engine::spec_number(t.skip(2)) {
                Err(_) => {},
                Ok((x, t2)) => match engine::spec_number(t2) {
                    Err(_) => {},
                    Ok((y, t3)) => {
                        lemma_gr_items_len(
                            engine::spec_skip_form(t3, 1),
                            GrPartsV { start: PointV { x, y }, ..acc },
                        );
                    },
                },
            }
        } else if t.len() >= 2 && t[1] == TokenV::Ident("end"@) {
            match engine::spec_number(t.skip(2)) {
                Err(_) => {},
                Ok((x, t2)) => match engine::spec_number(t2) {
                    Err(_) => {},
                    Ok((y, t3)) => {
                        lemma_gr_items_len(
                            engine::spec_skip_form(t3, 1),
                            GrPartsV { end: PointV { x, y }, ..acc },
                        );
                    },
                },
            }
        } else if t.len() >= 2 && t[1] == TokenV::Ident("at"@) {
            match spec_at(t.skip(1)) {
                Err(_) => {},
                Ok(((x, y, _rot), t2)) => {
                    lemma_gr_items_len(
                        engine::spec_skip_form(t2, 1),
                        GrPartsV { start: PointV { x, y }, ..acc },
                    );
                },
            }
        } else if t.len() >= 2 && t[1] == TokenV::Ident("width"@) {
            match engine::spec_number(t.skip(2)) {
                Err(_) => {},
                Ok((w, t2)) => {
                    lemma_gr_items_len(
                        engine::spec_skip_form(t2, 1),
                        GrPartsV { width: w, ..acc },
                    );
                },
            }
        } else if t.len() >= 2 && t[1] == TokenV::Ident("layer"@) {
            match engine::spec_string(t.skip(2)) {
                Err(_) => {},
                Ok((layer, t2)) => {
                    lemma_gr_items_len(
                        engine::spec_skip_form(t2, 1),
                        GrPartsV { layer: layer, ..acc },
                    );
                },
            }
        } else if t.len() >= 2 && t[1] == TokenV::Ident("pts"@) {
            match spec_pt_list(t.skip(2), Seq::empty()) {
                Err(_) => {},
                Ok((pts, rest)) => {
                    lemma_gr_items_len(rest, GrPartsV { pts: pts, ..acc });
                },
            }
        } else if t.len() >= 2 && t[1] == TokenV::Ident("fill"@) {
            let yes = t.len() >= 3 && (t[2] == TokenV::Ident("yes"@) || t[2]
                == TokenV::Ident("solid"@));
            lemma_gr_items_len(
                engine::spec_skip_form(t.skip(2), 1),
                GrPartsV { filled: yes, ..acc },
            );
        } else {
            lemma_gr_items_len(engine::spec_skip_form(t.skip(1), 1), acc);
        }
    } else {
        lemma_gr_items_len(t.skip(1), acc);
    }
}

pub proof fn lemma_gr_record_len(t: Seq<TokenV>)
    ensures
        spec_gr_line(t) is Ok ==> spec_gr_line(t)->Ok_0.1.len() < t.len(),
        spec_gr_rect(t) is Ok ==> spec_gr_rect(t)->Ok_0.1.len() < t.len(),
        spec_gr_poly(t) is Ok ==> spec_gr_poly(t)->Ok_0.1.len() < t.len(),
        spec_gr_text(t) is Ok ==> spec_gr_text(t)->Ok_0.1.len() < t.len(),
{
    if t.len() >= 2 && t[0] is LParen {
        assert(engine::spec_expect(t, TokenV::LParen)->Ok_0 =~= t.skip(1));
        assert(t.skip(1).skip(1) =~= t.skip(2));
        lemma_gr_items_len(t.skip(2), spec_gr_parts_empty());
        if t.len() >= 3 {
            assert(t.skip(2).skip(1) =~= t.skip(3));
            lemma_gr_items_len(t.skip(3), spec_gr_parts_empty());
        }
    }
}

/// The top-level items of a layout document, merged into `acc`, up to and
/// including the document's closing parenthesis: header fields, the layer
/// table, footprints, tracks, vias, zones, texts and graphics; any
/// unrecognized record is skipped whole.
pub open spec fn spec_doc_items(t: Seq<TokenV>, acc: PcbFileV) -> Result<
    (PcbFileV, Seq<TokenV>),
    ErrK,
>
    decreases t.len(),
    via spec_doc_items_decreases
{
    if t.len() == 0 {
        Err(ErrK::Unexpected)
    } else if t[0] is RParen {
        Ok((acc, t.skip(1)))
    } else if t[0] is LParen {
        if t.len() >= 2 && t[1] == TokenV::Ident("version"@) {
            if t.len() >= 3 && t[2] is Num {
                match engine::spec_expect(t.skip(3), TokenV::RParen) {
                    Err(k) => Err(k),
                    Ok(t2) => spec_doc_items(
                        t2,
                        PcbFileV {
                            version: crate::num::spec_decimal_text(t[2]->Num_0),
                            ..acc
                        },
                    ),
                }
            } else {
                match engine::spec_string(t.skip(2)) {
                    Err(k) => Err(k),
                    Ok((v, t2)) => match engine::spec_expect(t2, TokenV::RParen) {
                        Err(k) => Err(k),
                        Ok(t3) => spec_doc_items(t3, PcbFileV { version: v, ..acc }),
                    },
                }
            }
        } else if t.len() >= 2 && t[1] == TokenV::Ident("generator"@) {
            match engine::spec_string(t.skip(2)) {
                Err(k) => Err(k),
                Ok((g, t2)) => match engine::spec_expect(t2, TokenV::RParen) {
                    Err(k) => Err(k),
                    Ok(t3) => spec_doc_items(t3, PcbFileV { generator: g, ..acc }),
                },
            }
        } else if t.len() >= 2 && t[1] == TokenV::Ident("layers"@) {
            match spec_layers(t) {
                Err(k) => Err(k),
                Ok((entries, t2)) => spec_doc_items(
                    t2,
                    PcbFileV { layers: spec_layers_to_map(entries), ..acc },
                ),
            }
        } else if t.len() >= 2 && t[1] == TokenV::Ident("footprint"@) {
            match spec_footprint(t) {
                Err(k) => Err(k),
                Ok((fp, t2)) => spec_doc_items(
                    t2,
                    PcbFileV { footprints: acc.footprints.push(fp), ..acc },
                ),
            }
        } else if t.len() >= 2 && t[1] == TokenV::Ident("segment"@) {
            match spec_track(t) {
                Err(k) => Err(k),
                Ok((tr, t2)) => spec_doc_items(
                    t2,
                    PcbFileV { tracks: acc.tracks.push(tr), ..acc },
                ),
            }
        } else if t.len() >= 2 && t[1] == TokenV::Ident("via"@) {
            match spec_via(t) {
                Err(k) => Err(k),
                Ok((v, t2)) => spec_doc_items(
                    t2,
                    PcbFileV { vias: acc.vias.push(v), ..acc },
                ),
            }
        } else if t.len() >= 2 && t[1] == TokenV::Ident("zone"@) {
            match spec_zone(t) {
                Err(k) => Err(k),
                Ok((z, t2)) => spec_doc_items(
                    t2,
                    PcbFileV { zones: acc.zones.push(z), ..acc },
                ),
            }
        } else if t.len() >= 2 && t[1] == TokenV::Ident("gr_line"@) {
            match spec_gr_line(t) {
                Err(k) => Err(k),
                Ok((g, t2)) => spec_doc_items(
                    t2,
                    PcbFileV { graphics: acc.graphics.push(g), ..acc },
                ),
            }
        } else if t.len() >= 2 && t[1] == TokenV::Ident("gr_rect"@) {
            match spec_gr_rect(t) {
                Err(k) => Err(k),
                Ok((g, t2)) => spec_doc_items(
                    t2,
                    PcbFileV { graphics: acc.graphics.push(g), ..acc },
                ),
            }
        } else if t.len() >= 2 && t[1] == TokenV::Ident("gr_poly"@) {
            match spec_gr_poly(t) {
                Err(k) => Err(k),
                Ok((g, t2)) => spec_doc_items(
                    t2,
                    PcbFileV { graphics: acc.graphics.push(g), ..acc },
                ),
            }
        } else if t.len() >= 2 && t[1] == TokenV::Ident("gr_text"@) {
            match spec_gr_text(t) {
                Err(k) => Err(k),
                Ok((x, t2)) => spec_doc_items(
                    t2,
                    PcbFileV { texts: acc.texts.push(x), ..acc },
                ),
            }
        } else {
            spec_doc_items(engine::spec_skip_form(t.skip(1), 1), acc)
        }
    } else {
        spec_doc_items(t.skip(1), acc)
    }
}

#[via_fn]
proof fn spec_doc_items_decreases(t: Seq<TokenV>, acc: PcbFileV) {
    lemma_layers_len(t);
    lemma_footprint_len(t);
    lemma_track_len(t);
    lemma_via_len(t);
    lemma_zone_len(t);
    lemma_gr_record_len(t);
    engine::lemma_skip_form_len(t.skip(1), 1);
    if t.len() >= 3 {
        assert(t.skip(2).skip(1) =~= t.skip(3));
    }
}

/// A whole layout document: the opening `(kicad_pcb`, its items, and the
/// matching close. Tokens after the close are not examined.
pub open spec fn spec_document(t: Seq<TokenV>) -> Result<PcbFileV, ErrK> {
    match engine::spec_expect(t, TokenV::LParen) {
        Err(k) => Err(k),
        Ok(t1) => match engine::spec_expect(t1, TokenV::Ident("kicad_pcb"@)) {
            Err(k) => Err(k),
            Ok(t2) => match spec_doc_items(t2, PcbFileV::empty()) {
                Err(k) => Err(k),
                Ok((doc, _rest)) => Ok(doc),
            },
        },
    }
}

/// Law: duplicate layer IDs resolve to the later entry, by document
/// order. If two entries share an ID and the second has no later entry
/// with that ID, the layer mapping holds the second.
pub proof fn lemma_duplicate_layer_last_wins(entries: Seq<LayerV>, i: int, j: int)
    requires
        0 <= i < j < entries.len(),
        entries[i].id == entries[j].id,
        forall|k: int| j < k < entries.len() ==> (#[trigger] entries[k]).id != entries[j].id,
    ensures
        spec_layers_to_map(entries).contains_key(entries[j].id),
        spec_layers_to_map(entries)[entries[j].id] == entries[j],
    decreases entries.len(),
{
    if j == entries.len() - 1 {
        assert(entries.last() == entries[j]);
    } else {
        let p = entries.drop_last();
        assert(entries.last() == entries[entries.len() - 1]);
        assert(entries[entries.len() - 1].id != entries[j].id);
        assert(p[i] == entries[i]);
        assert(p[j] == entries[j]);
        assert forall|k: int| j < k < p.len() implies (#[trigger] p[k]).id != p[j].id by {
            assert(p[k] == entries[k]);
        }
        lemma_duplicate_layer_last_wins(p, i, j);
    }
}

/// Law: parsing is a pure function of the input text, so parsing
/// identical text twice yields structurally equal results.
pub proof fn lemma_parse_deterministic(
    text: Seq<char>,
    r1: Result<PcbFileV, ErrK>,
    r2: Result<PcbFileV, ErrK>,
)
    requires
        r1 == spec_document(token::spec_tokens(text)),
        r2 == spec_document(token::spec_tokens(text)),
    ensures
        r1 == r2,
{
}

/// Parenthesis nesting contributed by a token run: opens minus closes.
pub open spec fn paren_depth(t: Seq<TokenV>) -> int
    decreases t.len(),
{
    if t.len() == 0 {
        0
    } else {
        paren_depth(t.drop_last()) + match t.last() {
            TokenV::LParen => 1int,
            TokenV::RParen => -1int,
            _ => 0int,
        }
    }
}

pub proof fn lemma_paren_depth_concat(a: Seq<TokenV>, b: Seq<TokenV>)
    ensures
        paren_depth(a + b) == paren_depth(a) + paren_depth(b),
    decreases b.len(),
{
    if b.len() == 0 {
        assert(a + b =~= a);
    } else {
        lemma_paren_depth_concat(a, b.drop_last());
        assert((a + b).drop_last() =~= a + b.drop_last());
        assert((a + b).last() == b.last());
    }
}

/// A well-balanced form: it opens with a parenthesis, its nesting stays
/// positive strictly inside it, and the close matching the opener is its
/// last token.
pub open spec fn balanced_form(f: Seq<TokenV>) -> bool {
    &&& f.len() >= 2
    &&& f[0] is LParen
    &&& paren_depth(f) == 0
    &&& forall|k: int| 1 <= k < f.len() ==> paren_depth(#[trigger] f.take(k)) >= 1
}

proof fn lemma_skip_exact(u: Seq<TokenV>, rest: Seq<TokenV>, depth: nat)
    requires
        depth >= 1,
        forall|k: int| 0 <= k < u.len() ==> depth + paren_depth(#[trigger] u.take(k)) >= 1,
        depth + paren_depth(u) == 0,
    ensures
        engine::spec_skip_form(u + rest, depth) == rest,
    decreases u.len(),
{
    assert(u.take(0) =~= Seq::<TokenV>::empty());
    assert(depth + paren_depth(u.take(0)) >= 1 || u.len() == 0);
    if u.len() == 0 {
        assert(false);
    } else {
        let t = u + rest;
        assert(t.len() > 0);
        assert(t[0] == u[0]);
        let d: nat = match t[0] {
            TokenV::LParen => depth + 1,
            TokenV::RParen => (depth - 1) as nat,
            _ => depth,
        };
        assert(u.take(1) =~= seq![u[0]]);
        assert(u.take(1).drop_last() =~= Seq::<TokenV>::empty());
        if u.len() >= 2 {
            assert(depth + paren_depth(u.take(1)) >= 1);
        }
        let u2 = u.skip(1);
        assert(t.skip(1) =~= u2 + rest);
        assert forall|k: int| 0 <= k < u2.len() implies d + paren_depth(
            #[trigger] u2.take(k),
        ) >= 1 by {
            assert(u.take(k + 1) =~= seq![u[0]] + u2.take(k));
            lemma_paren_depth_concat(seq![u[0]], u2.take(k));
            assert(paren_depth(seq![u[0]]) == paren_depth(u.take(1)));
            assert(u.take(1) =~= seq![u[0]]);
            assert(depth + paren_depth(u.take(k + 1)) >= 1);
        }
        assert(u =~= seq![u[0]] + u2);
        lemma_paren_depth_concat(seq![u[0]], u2);
        assert(seq![u[0]].drop_last() =~= Seq::<TokenV>::empty());
        if d == 0 {
            assert(u[0] is RParen && depth == 1);
            if u2.len() > 0 {
                assert(depth + paren_depth(u.take(1)) >= 1);
                assert(paren_depth(u.take(1)) == -1);
                assert(false);
            }
            assert(u2 + rest =~= rest);
            assert(engine::spec_skip_form(t.skip(1), 0) == t.skip(1));
            assert(engine::spec_skip_form(t, depth) == engine::spec_skip_form(
                t.skip(1),
                0,
            ));
            assert(t.skip(1) =~= rest);
        } else {
            lemma_skip_exact(u2, rest, d);
        }
    }
}

/// Law: forward compatibility. Inserting an arbitrary well-balanced form
/// whose head keyword the grammar does not recognize, between two
/// top-level records, changes neither the parsed result for the
/// surrounding records nor produces an error: the document reads the same
/// with or without it.
#[verifier::rlimit(60)]
pub proof fn lemma_forward_compatible(form: Seq<TokenV>, rest: Seq<TokenV>, acc: PcbFileV)
    requires
        balanced_form(form),
        !(form[1] == TokenV::Ident("version"@)),
        !(form[1] == TokenV::Ident("generator"@)),
        !(form[1] == TokenV::Ident("layers"@)),
        !(form[1] == TokenV::Ident("footprint"@)),
        !(form[1] == TokenV::Ident("segment"@)),
        !(form[1] == TokenV::Ident("via"@)),
        !(form[1] == TokenV::Ident("zone"@)),
        !(form[1] == TokenV::Ident("gr_line"@)),
        !(form[1] == TokenV::Ident("gr_rect"@)),
        !(form[1] == TokenV::Ident("gr_poly"@)),
        !(form[1] == TokenV::Ident("gr_text"@)),
    ensures
        spec_doc_items(form + rest, acc) == spec_doc_items(rest, acc),
{
    let t = form + rest;
    assert(t.len() >= 2);
    assert(t[0] == form[0]);
    assert(t[1] == form[1]);
    assert(t.skip(1) =~= form.skip(1) + rest);
    let u = form.skip(1);
    assert forall|k: int| 0 <= k < u.len() implies 1 + paren_depth(#[trigger] u.take(k))
        >= 1 by {
        if k > 0 {
            assert(form.take(k + 1) =~= seq![form[0]] + u.take(k));
            lemma_paren_depth_concat(seq![form[0]], u.take(k));
            assert(seq![form[0]].drop_last() =~= Seq::<TokenV>::empty());
            assert(seq![form[0]].last() == form[0]);
            assert(paren_depth(Seq::<TokenV>::empty()) == 0);
            assert(paren_depth(seq![form[0]]) == 1);
            assert(paren_depth(form.take(k + 1)) >= 1);
        } else {
            assert(u.take(0) =~= Seq::<TokenV>::empty());
        }
    }
    assert(form =~= seq![form[0]] + u);
    lemma_paren_depth_concat(seq![form[0]], u);
    assert(seq![form[0]].drop_last() =~= Seq::<TokenV>::empty());
    assert(seq![form[0]].last() == form[0]);
    assert(paren_depth(Seq::<TokenV>::empty()) == 0);
    assert(paren_depth(seq![form[0]]) == 1);
    assert(1 + paren_depth(u) == 0);
    lemma_skip_exact(u, rest, 1);
}

/// Law: a pad record carrying a kind keyword but no shape keyword is a
/// missing-field failure; it never yields a partially filled pad, and by
/// construction the failure aborts the whole parse call.
pub proof fn lemma_pad_missing_shape(t: Seq<TokenV>)
    requires
        t.len() >= 4,
        t[0] is LParen,
        t[1] == TokenV::Ident("pad"@),
        t[2] is Str || t[2] is Ident,
        t[3] == TokenV::Ident("thru_hole"@) || t[3] == TokenV::Ident("smd"@) || t[3]
            == TokenV::Ident("np_thru_hole"@),
        t.len() == 4 || !(t[4] == TokenV::Ident("rect"@) || t[4] == TokenV::Ident("circle"@)
            || t[4] == TokenV::Ident("oval"@) || t[4] == TokenV::Ident("roundrect"@)),
    ensures
        spec_pad(t) == Err::<(PadV, Seq<TokenV>), ErrK>(ErrK::Missing),
{
    assert(engine::spec_expect(t, TokenV::LParen)->Ok_0 =~= t.skip(1));
    assert(t.skip(1).skip(1) =~= t.skip(2));
    assert(t.skip(2).skip(1) =~= t.skip(3));
    assert(t.skip(3).skip(1) =~= t.skip(4));
    assert(t.skip(2)[0] == t[2]);
    assert(t.skip(3)[0] == t[3]);
    if t.len() > 4 {
        assert(t.skip(4)[0] == t[4]);
    }
}

/// Cursor over the token sequence of one board-layout text.
pub struct PcbParser {
    tokens: Vec<Token>,
    position: usize,
}

impl PcbParser {
    /// The whole token sequence.
    pub closed spec fn toks(&self) -> Seq<TokenV> {
        self.tokens.deep_view()
    }

    /// The cursor sits inside the token sequence.
    pub closed spec fn wf(&self) -> bool {
        self.position <= self.tokens@.len()
    }

    /// The tokens not yet consumed.
    pub closed spec fn rem(&self) -> Seq<TokenV> {
        self.toks().skip(self.position as int)
    }

    /// The remaining tokens fit the cursor's backing vector.
    pub proof fn lemma_rem_len_bound(&self)
        requires
            self.wf(),
        ensures
            self.rem().len() <= usize::MAX,
    {
        assert(self.toks().len() == self.tokens@.len());
        assert(vstd::std_specs::vec::spec_vec_len(&self.tokens) == self.tokens@.len());
        assert(self.rem().len() == self.toks().len() - self.position);
    }

    /// A parser at the start of the token sequence of `input`.
    pub(crate) fn new(input: &str) -> (r: PcbParser)
        ensures
            r.wf(),
            r.rem() == token::spec_tokens(input@),
    {
        let tokens = token::tokenize(input);
        let r = PcbParser { tokens, position: 0 };
        proof {
            assert(r.rem() =~= r.toks());
        }
        r
    }

    pub(crate) fn current(&self) -> (r: Option<&Token>)
        requires
            self.wf(),
        ensures
            match r {
                Some(t) => self.rem().len() > 0 && t@ == self.rem()[0],
                None => self.rem().len() == 0,
            },
    {
        if self.position < self.tokens.len() {
            let t = &self.tokens[self.position];
            proof {
                assert(self.rem()[0] == self.toks()[self.position as int]);
            }
            Some(t)
        } else {
            None
        }
    }

    pub(crate) fn advance(&mut self)
        requires
            old(self).wf(),
            old(self).rem().len() > 0,
        ensures
            final(self).wf(),
            final(self).toks() == old(self).toks(),
            final(self).rem() == old(self).rem().skip(1),
    {
        let n = self.tokens.len();
        proof {
            let t = old(self).toks();
            assert(t.len() == old(self).tokens@.len());
            assert(t.skip(old(self).position as int).len() == t.len() - old(
                self,
            ).position);
            assert(old(self).position < n);
        }
        self.position = self.position + 1;
        proof {
            assert(self.rem() =~= old(self).rem().skip(1));
        }
    }

    /// Consume the current token, which must equal `expected`.
    pub(crate) fn expect(&mut self, expected: &Token) -> (r: Result<(), KicadError>)
        requires
            old(self).wf(),
        ensures
            final(self).wf(),
            final(self).toks() == old(self).toks(),
            match engine::spec_expect(old(self).rem(), expected@) {
                Ok(rest) => r is Ok && final(self).rem() == rest,
                Err(k) => r is Err && engine::matches_kind(r->Err_0, k)
                    && r->Err_0->UnexpectedToken_0@ == engine::spec_expect_msg(
                    expected@,
                    old(self).rem(),
                ) && final(self).rem() == old(self).rem(),
            },
    {
        let matched = match self.current() {
            Some(t) => engine::token_eq(t, expected),
            None => false,
        };
        if matched {
            self.advance();
            Ok(())
        } else {
            let mut m = String::from_str("expected ");
            m.append(expected.describe());
            m.append(", found ");
            match self.current() {
                Some(t) => m.append(t.describe()),
                None => m.append("end of input"),
            }
            proof {
                assert(m@ =~= engine::spec_expect_msg(expected@, old(self).rem()));
            }
            Err(KicadError::UnexpectedToken(m))
        }
    }

    /// Consume the current token, which must be an identifier with text `kw`.
    pub(crate) fn expect_kw(&mut self, kw: &str) -> (r: Result<(), KicadError>)
        requires
            old(self).wf(),
        ensures
            final(self).wf(),
            final(self).toks() == old(self).toks(),
            match engine::spec_expect(old(self).rem(), TokenV::Ident(kw@)) {
                Ok(rest) => r is Ok && final(self).rem() == rest,
                Err(k) => r is Err && engine::matches_kind(r->Err_0, k)
                    && r->Err_0->UnexpectedToken_0@ == engine::spec_expect_kw_msg(
                    kw@,
                    old(self).rem(),
                ) && final(self).rem() == old(self).rem(),
            },
    {
        let matched = match self.current() {
            Some(t) => engine::token_is_kw(t, kw),
            None => false,
        };
        if matched {
            self.advance();
            Ok(())
        } else {
            let mut m = String::from_str("expected keyword ");
            m.append(kw);
            m.append(", found ");
            match self.current() {
                Some(t) => m.append(t.describe()),
                None => m.append("end of input"),
            }
            proof {
                assert(m@ =~= engine::spec_expect_kw_msg(kw@, old(self).rem()));
            }
            Err(KicadError::UnexpectedToken(m))
        }
    }

    /// Consume a numeric token.
    pub(crate) fn parse_number(&mut self) -> (r: Result<Decimal, KicadError>)
        requires
            old(self).wf(),
        ensures
            final(self).wf(),
            final(self).toks() == old(self).toks(),
            match engine::spec_number(old(self).rem()) {
                Ok((v, rest)) => r is Ok && r->Ok_0@ == v && final(self).rem() == rest,
                Err(k) => r is Err && engine::matches_kind(r->Err_0, k)
                    && r->Err_0->ParseError_0@ == "expected a number"@ && final(self).rem()
                    == old(self).rem(),
            },
    {
        let d = match self.current() {
            Some(t) => match t {
                Token::Num(d) => Some(*d),
                _ => None,
            },
            None => None,
        };
        match d {
            Some(d) => {
                self.advance();
                Ok(d)
            },
            None => Err(KicadError::ParseError(String::from_str("expected a number"))),
        }
    }

    /// Consume a string or identifier token; its text.
    pub(crate) fn parse_string(&mut self) -> (r: Result<String, KicadError>)
        requires
            old(self).wf(),
        ensures
            final(self).wf(),
            final(self).toks() == old(self).toks(),
            match engine::spec_string(old(self).rem()) {
                Ok((v, rest)) => r is Ok && r->Ok_0@ == v && final(self).rem() == rest,
                Err(k) => r is Err && engine::matches_kind(r->Err_0, k)
                    && r->Err_0->ParseError_0@ == "expected a string"@ && final(self).rem()
                    == old(self).rem(),
            },
    {
        let s = match self.current() {
            Some(t) => match t {
                Token::Str(s) => Some(s.clone()),
                Token::Ident(s) => Some(s.clone()),
                _ => None,
            },
            None => None,
        };
        match s {
            Some(s) => {
                self.advance();
                Ok(s)
            },
            None => Err(KicadError::ParseError(String::from_str("expected a string"))),
        }
    }

    /// Is the current token an opening parenthesis.
    pub(crate) fn at_lparen(&self) -> (r: bool)
        requires
            self.wf(),
        ensures
            r == (self.rem().len() > 0 && self.rem()[0] is LParen),
    {
        match self.current() {
            Some(t) => match t {
                Token::LParen => true,
                _ => false,
            },
            None => false,
        }
    }

    /// Is the current token a closing parenthesis.
    pub(crate) fn at_rparen(&self) -> (r: bool)
        requires
            self.wf(),
        ensures
            r == (self.rem().len() > 0 && self.rem()[0] is RParen),
    {
        match self.current() {
            Some(t) => match t {
                Token::RParen => true,
                _ => false,
            },
            None => false,
        }
    }

    /// Is the current token a quoted string.
    pub(crate) fn at_str(&self) -> (r: bool)
        requires
            self.wf(),
        ensures
            r == (self.rem().len() > 0 && self.rem()[0] is Str),
    {
        match self.current() {
            Some(t) => match t {
                Token::Str(_) => true,
                _ => false,
            },
            None => false,
        }
    }

    /// Is the current token a number.
    pub(crate) fn at_number(&self) -> (r: bool)
        requires
            self.wf(),
        ensures
            r == (self.rem().len() > 0 && self.rem()[0] is Num),
    {
        match self.current() {
            Some(t) => match t {
                Token::Num(_) => true,
                _ => false,
            },
            None => false,
        }
    }

    /// Is the current token a string or identifier.
    pub(crate) fn at_text(&self) -> (r: bool)
        requires
            self.wf(),
        ensures
            r == (self.rem().len() > 0 && (self.rem()[0] is Str || self.rem()[0] is Ident)),
    {
        match self.current() {
            Some(t) => match t {
                Token::Str(_) => true,
                Token::Ident(_) => true,
                _ => false,
            },
            None => false,
        }
    }

    /// Is the current token the identifier `kw`.
    pub(crate) fn at_kw(&self, kw: &str) -> (r: bool)
        requires
            self.wf(),
        ensures
            r == (self.rem().len() > 0 && self.rem()[0] == TokenV::Ident(kw@)),
    {
        match self.current() {
            Some(t) => engine::token_is_kw(t, kw),
            None => false,
        }
    }

    /// Parse a position form body `at x y [rot]`; the rotation is zero
    /// when the form carries only two coordinates.
    fn parse_at(&mut self) -> (r: Result<(Point, Decimal), KicadError>)
        requires
            old(self).wf(),
        ensures
            final(self).wf(),
            final(self).toks() == old(self).toks(),
            match spec_at(old(self).rem()) {
                Ok(((x, y, rot), rest)) => r is Ok && r->Ok_0.0@ == (PointV { x, y })
                    && r->Ok_0.1@ == rot && final(self).rem() == rest,
                Err(k) => r is Err && engine::matches_kind(r->Err_0, k),
            },
    {
        match self.expect_kw("at") {
            Ok(()) => (),
            Err(e) => {
                return Err(e);
            },
        }
        let x = match self.parse_number() {
            Ok(v) => v,
            Err(e) => {
                return Err(e);
            },
        };
        let y = match self.parse_number() {
            Ok(v) => v,
            Err(e) => {
                return Err(e);
            },
        };
        let rot = if self.at_number() {
            match self.parse_number() {
                Ok(v) => v,
                Err(e) => {
                    return Err(e);
                },
            }
        } else {
            Decimal::zero()
        };
        Ok((Point { x, y }, rot))
    }

    /// Parse a point form body `xy x y`.
    fn parse_point(&mut self) -> (r: Result<Point, KicadError>)
        requires
            old(self).wf(),
        ensures
            final(self).wf(),
            final(self).toks() == old(self).toks(),
            match spec_point(old(self).rem()) {
                Ok((p, rest)) => r is Ok && r->Ok_0@ == p && final(self).rem() == rest,
                Err(k) => r is Err && engine::matches_kind(r->Err_0, k),
            },
    {
        match self.expect_kw("xy") {
            Ok(()) => (),
            Err(e) => {
                return Err(e);
            },
        }
        let x = match self.parse_number() {
            Ok(v) => v,
            Err(e) => {
                return Err(e);
            },
        };
        let y = match self.parse_number() {
            Ok(v) => v,
            Err(e) => {
                return Err(e);
            },
        };
        Ok(Point { x, y })
    }

    /// Parse one layer-table entry.
    fn parse_layer(&mut self) -> (r: Result<Layer, KicadError>)
        requires
            old(self).wf(),
        ensures
            final(self).wf(),
            final(self).toks() == old(self).toks(),
            match spec_layer_entry(old(self).rem()) {
                Ok((l, rest)) => r is Ok && r->Ok_0@ == l && final(self).rem() == rest,
                Err(k) => r is Err && engine::matches_kind(r->Err_0, k),
            },
    {
        match self.expect(&Token::LParen) {
            Ok(()) => (),
            Err(e) => {
                return Err(e);
            },
        }
        let idd = match self.parse_number() {
            Ok(v) => v,
            Err(e) => {
                return Err(e);
            },
        };
        let id = idd.to_i32_trunc();
        let name = match self.parse_string() {
            Ok(v) => v,
            Err(e) => {
                return Err(e);
            },
        };
        let layer_type = match self.parse_string() {
            Ok(v) => v,
            Err(e) => {
                return Err(e);
            },
        };
        let mut user_name: Option<String> = None;
        if self.at_text() {
            match self.parse_string() {
                Ok(v) => {
                    user_name = Some(v);
                },
                Err(e) => {
                    return Err(e);
                },
            }
        }
        match self.expect(&Token::RParen) {
            Ok(()) => (),
            Err(e) => {
                return Err(e);
            },
        }
        Ok(Layer { id, name, layer_type, user_name })
    }

    /// Parse the run of layer entries, inserting each into `layers` in
    /// document order, so a later entry wins a shared ID.
    fn parse_layer_list(&mut self, layers: &mut HashMap<i32, Layer>) -> (r: Result<
        (),
        KicadError,
    >)
        requires
            old(self).wf(),
            old(layers)@ == Map::<i32, Layer>::empty(),
        ensures
            final(self).wf(),
            final(self).toks() == old(self).toks(),
            match spec_layer_list(old(self).rem(), Seq::empty()) {
                Ok((entries, rest)) => r is Ok && final(layers)@.map_values(|l: Layer| l@)
                    == spec_layers_to_map(entries) && final(self).rem() == rest,
                Err(k) => r is Err && engine::matches_kind(r->Err_0, k),
            },
    {
        let ghost mut acc = Seq::<LayerV>::empty();
        proof {
            assert(layers@.map_values(|l: Layer| l@) =~= spec_layers_to_map(acc));
        }
        while self.at_lparen()
            invariant
                self.wf(),
                self.toks() == old(self).toks(),
                spec_layer_list(old(self).rem(), Seq::empty()) == spec_layer_list(
                    self.rem(),
                    acc,
                ),
                layers@.map_values(|l: Layer| l@) == spec_layers_to_map(acc),
            decreases self.rem().len(),
        {
            let ghost rem0 = self.rem();
            let ghost layers0 = layers@;
            let layer = match self.parse_layer() {
                Ok(v) => v,
                Err(e) => {
                    proof {
                        assert(spec_layer_list(rem0, acc) is Err);
                    }
                    return Err(e);
                },
            };
            let ghost lv = layer@;
            layers.insert(layer.id, layer);
            proof {
                lemma_layer_entry_len(rem0);
                let acc2 = acc.push(lv);
                assert(acc2.drop_last() =~= acc);
                assert(acc2.last() == lv);
                assert(spec_layers_to_map(acc2) == spec_layers_to_map(acc).insert(
                    lv.id,
                    lv,
                ));
                assert(layers@ == layers0.insert(lv.id as i32, layer));
                assert(layers@.map_values(|l: Layer| l@) =~= layers0.map_values(
                    |l: Layer| l@,
                ).insert(lv.id as i32, lv));
                acc = acc2;
            }
        }
        Ok(())
    }

    /// Parse the layer table; duplicate IDs resolve to the later entry.
    fn parse_layers(&mut self) -> (r: Result<HashMap<i32, Layer>, KicadError>)
        requires
            old(self).wf(),
        ensures
            final(self).wf(),
            final(self).toks() == old(self).toks(),
            match spec_layers(old(self).rem()) {
                Ok((entries, rest)) => r is Ok && r->Ok_0@.map_values(|l: Layer| l@)
                    == spec_layers_to_map(entries) && final(self).rem() == rest,
                Err(k) => r is Err && engine::matches_kind(r->Err_0, k),
            },
    {
        match self.expect(&Token::LParen) {
            Ok(()) => (),
            Err(e) => {
                return Err(e);
            },
        }
        match self.expect_kw("layers") {
            Ok(()) => (),
            Err(e) => {
                return Err(e);
            },
        }
        let mut layers: HashMap<i32, Layer> = HashMap::new();
        match self.parse_layer_list(&mut layers) {
            Ok(()) => (),
            Err(e) => {
                return Err(e);
            },
        }
        match self.expect(&Token::RParen) {
            Ok(()) => (),
            Err(e) => {
                return Err(e);
            },
        }
        Ok(layers)
    }

    /// Parse the names inside a pad's `(layers ...)` form, consuming the
    /// closing parenthesis.
    fn parse_name_list(&mut self, names: &mut Vec<String>) -> (r: Result<(), KicadError>)
        requires
            old(self).wf(),
        ensures
            final(self).wf(),
            final(self).toks() == old(self).toks(),
            match spec_name_list(old(self).rem(), old(names).deep_view()) {
                Ok((ns, rest)) => r is Ok && final(names).deep_view() == ns
                    && final(self).rem() == rest && rest.len() <= old(self).rem().len(),
                Err(k) => r is Err && engine::matches_kind(r->Err_0, k),
            },
    {
        proof {
            lemma_name_list_len(self.rem(), names.deep_view());
        }
        while !self.at_rparen()
            invariant
                self.wf(),
                self.toks() == old(self).toks(),
                spec_name_list(old(self).rem(), old(names).deep_view()) == spec_name_list(
                    self.rem(),
                    names.deep_view(),
                ),
            decreases self.rem().len(),
        {
            let ghost rem0 = self.rem();
            let ghost ns0 = names.deep_view();
            let s = match self.parse_string() {
                Ok(v) => v,
                Err(e) => {
                    proof {
                        assert(spec_name_list(rem0, ns0) is Err);
                    }
                    return Err(e);
                },
            };
            let ghost sv = s@;
            names.push(s);
            proof {
                assert(names.deep_view() =~= ns0.push(sv));
            }
        }
        self.advance();
        Ok(())
    }

    /// Parse a pad record's optional trailing fields into `pad`, consuming
    /// the record's closing parenthesis.
    fn parse_pad_opts(&mut self, pad: &mut Pad) -> (r: Result<(), KicadError>)
        requires
            old(self).wf(),
        ensures
            final(self).wf(),
            final(self).toks() == old(self).toks(),
            match spec_pad_opts(old(self).rem(), old(pad)@) {
                Ok((pv, rest)) => r is Ok && final(pad)@ == pv && final(self).rem() == rest,
                Err(k) => r is Err && engine::matches_kind(r->Err_0, k),
            },
    {
        while !self.at_rparen()
            invariant
                self.wf(),
                self.toks() == old(self).toks(),
                spec_pad_opts(old(self).rem(), old(pad)@) == spec_pad_opts(
                    self.rem(),
                    pad@,
                ),
            decreases self.rem().len(),
        {
            let ghost rem0 = self.rem();
            let ghost pad0 = pad@;
            if self.current().is_none() {
                return Err(
                    KicadError::UnexpectedToken(
                        String::from_str("unexpected end of input in pad record"),
                    ),
                );
            }
            if self.at_lparen() {
                self.advance();
                proof {
                    assert(self.rem() =~= rem0.skip(1));
                }
                if self.at_kw("layers") {
                    self.advance();
                    proof {
                        assert(self.rem() =~= rem0.skip(2));
                    }
                    match self.parse_name_list(&mut pad.layers) {
                        Ok(()) => (),
                        Err(e) => {
                            proof {
                                assert(spec_pad_opts(rem0, pad0) is Err);
                            }
                            return Err(e);
                        },
                    }
                } else if self.at_kw("net") {
                    self.advance();
                    proof {
                        assert(self.rem() =~= rem0.skip(2));
                    }
                    match self.parse_number() {
                        Ok(_) => (),
                        Err(e) => {
                            proof {
                                assert(spec_pad_opts(rem0, pad0) is Err);
                            }
                            return Err(e);
                        },
                    }
                    let name = match self.parse_string() {
                        Ok(v) => v,
                        Err(e) => {
                            proof {
                                assert(spec_pad_opts(rem0, pad0) is Err);
                            }
                            return Err(e);
                        },
                    };
                    pad.net = Some(name);
                    match self.skip_sexp() {
                        Ok(()) => (),
                        Err(e) => {
                            return Err(e);
                        },
                    }
                } else if self.at_kw("roundrect_rratio") {
                    self.advance();
                    proof {
                        assert(self.rem() =~= rem0.skip(2));
                    }
                    let v = match self.parse_number() {
                        Ok(v) => v,
                        Err(e) => {
                            proof {
                                assert(spec_pad_opts(rem0, pad0) is Err);
                            }
                            return Err(e);
                        },
                    };
                    pad.roundrect_ratio = Some(v);
                    match self.skip_sexp() {
                        Ok(()) => (),
                        Err(e) => {
                            return Err(e);
                        },
                    }
                } else if self.at_kw("drill") {
                    self.advance();
                    proof {
                        assert(self.rem() =~= rem0.skip(2));
                    }
                    if self.at_number() {
                        let ghost t2 = self.rem();
                        let v = match self.parse_number() {
                            Ok(v) => v,
                            Err(e) => {
                                return Err(e);
                            },
                        };
                        pad.drill = Some(v);
                        proof {
                            assert(t2.skip(1) =~= rem0.skip(2).skip(1));
                        }
                        match self.skip_sexp() {
                            Ok(()) => (),
                            Err(e) => {
                                return Err(e);
                            },
                        }
                    } else {
                        match self.skip_sexp() {
                            Ok(()) => (),
                            Err(e) => {
                                return Err(e);
                            },
                        }
                    }
                } else {
                    match self.skip_sexp() {
                        Ok(()) => (),
                        Err(e) => {
                            return Err(e);
                        },
                    }
                }
            } else {
                self.advance();
                proof {
                    assert(self.rem() =~= rem0.skip(1));
                }
            }
        }
        self.advance();
        Ok(())
    }

    /// Parse a whole pad record. The kind and shape keywords and the
    /// position and size forms are mandatory; optional fields may come in
    /// any order and unrecognized sub-forms are skipped.
    fn parse_pad(&mut self) -> (r: Result<Pad, KicadError>)
        requires
            old(self).wf(),
        ensures
            final(self).wf(),
            final(self).toks() == old(self).toks(),
            match spec_pad(old(self).rem()) {
                Ok((pv, rest)) => r is Ok && r->Ok_0@ == pv && final(self).rem() == rest,
                Err(k) => r is Err && engine::matches_kind(r->Err_0, k),
            },
    {
        match self.expect(&Token::LParen) {
            Ok(()) => (),
            Err(e) => {
                return Err(e);
            },
        }
        match self.expect_kw("pad") {
            Ok(()) => (),
            Err(e) => {
                return Err(e);
            },
        }
        let number = match self.parse_string() {
            Ok(v) => v,
            Err(e) => {
                return Err(e);
            },
        };
        let pad_type: String = if self.at_kw("thru_hole") {
            self.advance();
            String::from_str("thru_hole")
        } else if self.at_kw("smd") {
            self.advance();
            String::from_str("smd")
        } else if self.at_kw("np_thru_hole") {
            self.advance();
            String::from_str("np_thru_hole")
        } else {
            return Err(KicadError::MissingField(String::from_str("pad kind keyword")));
        };
        let shape: String = if self.at_kw("rect") {
            self.advance();
            String::from_str("rect")
        } else if self.at_kw("circle") {
            self.advance();
            String::from_str("circle")
        } else if self.at_kw("oval") {
            self.advance();
            String::from_str("oval")
        } else if self.at_kw("roundrect") {
            self.advance();
            String::from_str("roundrect")
        } else {
            return Err(KicadError::MissingField(String::from_str("pad shape keyword")));
        };
        match self.expect(&Token::LParen) {
            Ok(()) => (),
            Err(e) => {
                return Err(e);
            },
        }
        let (position, _rot) = match self.parse_at() {
            Ok(v) => v,
            Err(e) => {
                return Err(e);
            },
        };
        match self.expect(&Token::RParen) {
            Ok(()) => (),
            Err(e) => {
                return Err(e);
            },
        }
        match self.expect(&Token::LParen) {
            Ok(()) => (),
            Err(e) => {
                return Err(e);
            },
        }
        match self.expect_kw("size") {
            Ok(()) => (),
            Err(e) => {
                return Err(e);
            },
        }
        let sx = match self.parse_number() {
            Ok(v) => v,
            Err(e) => {
                return Err(e);
            },
        };
        let sy = match self.parse_number() {
            Ok(v) => v,
            Err(e) => {
                return Err(e);
            },
        };
        match self.expect(&Token::RParen) {
            Ok(()) => (),
            Err(e) => {
                return Err(e);
            },
        }
        let mut pad = Pad {
            number,
            pad_type,
            shape,
            position,
            size: Point { x: sx, y: sy },
            drill: None,
            layers: Vec::new(),
            net: None,
            roundrect_ratio: None,
        };
        proof {
            assert(pad@.layers =~= Seq::<Seq<char>>::empty());
        }
        match self.parse_pad_opts(&mut pad) {
            Ok(()) => (),
            Err(e) => {
                return Err(e);
            },
        }
        Ok(pad)
    }

    /// Is the token after the current one the identifier `kw`.
    pub(crate) fn peek_next_kw(&self, kw: &str) -> (r: bool)
        requires
            self.wf(),
        ensures
            r == (self.rem().len() >= 2 && self.rem()[1] == TokenV::Ident(kw@)),
    {
        if self.position < self.tokens.len() && self.position + 1 < self.tokens.len() {
            proof {
                assert(self.rem()[1] == self.toks()[self.position + 1]);
            }
            engine::token_is_kw(&self.tokens[self.position + 1], kw)
        } else {
            proof {
                assert(self.rem().len() == self.toks().len() - self.position);
            }
            false
        }
    }

    /// Parse a footprint record's body items into `fp`, consuming the
    /// record's closing parenthesis.
    #[verifier::rlimit(60)]
    fn parse_footprint_items(&mut self, fp: &mut Footprint) -> (r: Result<(), KicadError>)
        requires
            old(self).wf(),
        ensures
            final(self).wf(),
            final(self).toks() == old(self).toks(),
            match spec_fp_items(old(self).rem(), old(fp)@) {
                Ok((fv, rest)) => r is Ok && final(fp)@ == fv && final(self).rem() == rest,
                Err(k) => r is Err && engine::matches_kind(r->Err_0, k),
            },
    {
        while !self.at_rparen()
            invariant
                self.wf(),
                self.toks() == old(self).toks(),
                spec_fp_items(old(self).rem(), old(fp)@) == spec_fp_items(
                    self.rem(),
                    fp@,
                ),
            decreases self.rem().len(),
        {
            let ghost rem0 = self.rem();
            let ghost fp0 = fp@;
            if self.current().is_none() {
                return Err(
                    KicadError::UnexpectedToken(
                        String::from_str("unexpected end of input in footprint record"),
                    ),
                );
            }
            if self.at_lparen() {
                if self.peek_next_kw("at") {
                    self.advance();
                    proof {
                        assert(self.rem() =~= rem0.skip(1));
                    }
                    let (pos, rot) = match self.parse_at() {
                        Ok(v) => v,
                        Err(e) => {
                            proof {
                                assert(spec_fp_items(rem0, fp0) is Err);
                            }
                            return Err(e);
                        },
                    };
                    fp.position = pos;
                    fp.rotation = rot;
                    match self.skip_sexp() {
                        Ok(()) => (),
                        Err(e) => {
                            return Err(e);
                        },
                    }
                } else if self.peek_next_kw("layer") {
                    self.advance();
                    self.advance();
                    proof {
                        assert(self.rem() =~= rem0.skip(2));
                    }
                    let layer = match self.parse_string() {
                        Ok(v) => v,
                        Err(e) => {
                            proof {
                                assert(spec_fp_items(rem0, fp0) is Err);
                            }
                            return Err(e);
                        },
                    };
                    fp.layer = layer;
                    match self.skip_sexp() {
                        Ok(()) => (),
                        Err(e) => {
                            return Err(e);
                        },
                    }
                } else if self.peek_next_kw("pad") {
                    let ghost pads0 = fp.pads.deep_view();
                    let pad = match self.parse_pad() {
                        Ok(v) => v,
                        Err(e) => {
                            proof {
                                assert(spec_fp_items(rem0, fp0) is Err);
                            }
                            return Err(e);
                        },
                    };
                    let ghost pv = pad@;
                    fp.pads.push(pad);
                    proof {
                        lemma_pad_len(rem0);
                        assert(fp.pads.deep_view() =~= pads0.push(pv));
                    }
                } else if self.peek_next_kw("uuid") {
                    self.advance();
                    self.advance();
                    proof {
                        assert(self.rem() =~= rem0.skip(2));
                    }
                    let uuid = match self.parse_string() {
                        Ok(v) => v,
                        Err(e) => {
                            proof {
                                assert(spec_fp_items(rem0, fp0) is Err);
                            }
                            return Err(e);
                        },
                    };
                    fp.uuid = uuid;
                    match self.skip_sexp() {
                        Ok(()) => (),
                        Err(e) => {
                            return Err(e);
                        },
                    }
                } else {
                    self.advance();
                    proof {
                        assert(self.rem() =~= rem0.skip(1));
                    }
                    match self.skip_sexp() {
                        Ok(()) => (),
                        Err(e) => {
                            return Err(e);
                        },
                    }
                }
            } else if self.at_kw("locked") {
                self.advance();
                fp.locked = true;
                proof {
                    assert(self.rem() =~= rem0.skip(1));
                }
            } else if self.at_kw("placed") {
                self.advance();
                fp.placed = true;
                proof {
                    assert(self.rem() =~= rem0.skip(1));
                }
            } else if self.at_kw("uuid") {
                self.advance();
                proof {
                    assert(self.rem() =~= rem0.skip(1));
                }
                let uuid = match self.parse_string() {
                    Ok(v) => v,
                    Err(e) => {
                        proof {
                            assert(spec_fp_items(rem0, fp0) is Err);
                        }
                        return Err(e);
                    },
                };
                fp.uuid = uuid;
            } else {
                self.advance();
                proof {
                    assert(self.rem() =~= rem0.skip(1));
                }
            }
        }
        self.advance();
        Ok(())
    }

    /// Parse a whole footprint record: name, position and rotation, layer,
    /// pads and instance id; anything else inside it is skipped.
    fn parse_footprint(&mut self) -> (r: Result<Footprint, KicadError>)
        requires
            old(self).wf(),
        ensures
            final(self).wf(),
            final(self).toks() == old(self).toks(),
            match spec_footprint(old(self).rem()) {
                Ok((fv, rest)) => r is Ok && r->Ok_0@ == fv && final(self).rem() == rest,
                Err(k) => r is Err && engine::matches_kind(r->Err_0, k),
            },
    {
        match self.expect(&Token::LParen) {
            Ok(()) => (),
            Err(e) => {
                return Err(e);
            },
        }
        match self.expect_kw("footprint") {
            Ok(()) => (),
            Err(e) => {
                return Err(e);
            },
        }
        let name = match self.parse_string() {
            Ok(v) => v,
            Err(e) => {
                return Err(e);
            },
        };
        let mut fp = Footprint {
            name,
            uuid: String::new(),
            position: Point { x: Decimal::zero(), y: Decimal::zero() },
            rotation: Decimal::zero(),
            layer: String::new(),
            locked: false,
            placed: true,
            properties: HashMap::new(),
            pads: Vec::new(),
            graphics: Vec::new(),
            texts: Vec::new(),
        };
        proof {
            vstd::std_specs::hash::lemma_hashmap_deepview_dom(fp.properties);
            assert(fp.properties@.dom() =~= Set::<String>::empty());
            assert(fp.properties@.dom().map(|k: String| k.deep_view()) =~= Set::<
                Seq<char>,
            >::empty());
            assert(fp@.properties.dom() =~= Set::<Seq<char>>::empty());
            assert(fp@.properties =~= Map::<Seq<char>, Seq<char>>::empty());
            assert(fp@.pads =~= Seq::<PadV>::empty());
            assert(fp@.graphics =~= Seq::<GraphicV>::empty());
            assert(fp@.texts =~= Seq::<TextV>::empty());
        }
        match self.parse_footprint_items(&mut fp) {
            Ok(()) => (),
            Err(e) => {
                return Err(e);
            },
        }
        Ok(fp)
    }

    /// Parse the `(xy x y)` forms of a `pts` form, consuming its closing
    /// parenthesis.
    fn parse_pt_list(&mut self, pts: &mut Vec<Point>) -> (r: Result<(), KicadError>)
        requires
            old(self).wf(),
        ensures
            final(self).wf(),
            final(self).toks() == old(self).toks(),
            match spec_pt_list(old(self).rem(), old(pts).deep_view()) {
                Ok((ps, rest)) => r is Ok && final(pts).deep_view() == ps
                    && final(self).rem() == rest && rest.len() <= old(self).rem().len(),
                Err(k) => r is Err && engine::matches_kind(r->Err_0, k),
            },
    {
        proof {
            lemma_pt_list_len(self.rem(), pts.deep_view());
        }
        while !self.at_rparen()
            invariant
                self.wf(),
                self.toks() == old(self).toks(),
                spec_pt_list(old(self).rem(), old(pts).deep_view()) == spec_pt_list(
                    self.rem(),
                    pts.deep_view(),
                ),
            decreases self.rem().len(),
        {
            let ghost rem0 = self.rem();
            let ghost ps0 = pts.deep_view();
            if self.current().is_none() {
                return Err(
                    KicadError::UnexpectedToken(
                        String::from_str("unexpected end of input in point list"),
                    ),
                );
            }
            match self.expect(&Token::LParen) {
                Ok(()) => (),
                Err(e) => {
                    proof {
                        assert(spec_pt_list(rem0, ps0) is Err);
                    }
                    return Err(e);
                },
            }
            let p = match self.parse_point() {
                Ok(v) => v,
                Err(e) => {
                    proof {
                        assert(spec_pt_list(rem0, ps0) is Err);
                    }
                    return Err(e);
                },
            };
            match self.expect(&Token::RParen) {
                Ok(()) => (),
                Err(e) => {
                    proof {
                        assert(spec_pt_list(rem0, ps0) is Err);
                    }
                    return Err(e);
                },
            }
            let ghost pv = p@;
            pts.push(p);
            proof {
                assert(pts.deep_view() =~= ps0.push(pv));
            }
        }
        self.advance();
        Ok(())
    }

    /// Parse a track record's body items into `tr`, consuming the
    /// record's closing parenthesis.
    #[verifier::rlimit(60)]
    fn parse_track_items(&mut self, tr: &mut Track) -> (r: Result<(), KicadError>)
        requires
            old(self).wf(),
        ensures
            final(self).wf(),
            final(self).toks() == old(self).toks(),
            match spec_track_items(old(self).rem(), old(tr)@) {
                Ok((tv, rest)) => r is Ok && final(tr)@ == tv && final(self).rem() == rest,
                Err(k) => r is Err && engine::matches_kind(r->Err_0, k),
            },
    {
        while !self.at_rparen()
            invariant
                self.wf(),
                self.toks() == old(self).toks(),
                spec_track_items(old(self).rem(), old(tr)@) == spec_track_items(
                    self.rem(),
                    tr@,
                ),
            decreases self.rem().len(),
        {
            let ghost rem0 = self.rem();
            let ghost tr0 = tr@;
            if self.current().is_none() {
                return Err(
                    KicadError::UnexpectedToken(
                        String::from_str("unexpected end of input in track record"),
                    ),
                );
            }
            if self.at_lparen() {
                if self.peek_next_kw("start") {
                    self.advance();
                    self.advance();
                    proof {
                        assert(self.rem() =~= rem0.skip(2));
                    }
                    let x = match self.parse_number() {
                        Ok(v) => v,
                        Err(e) => {
                            proof {
                                assert(spec_track_items(rem0, tr0) is Err);
                            }
                            return Err(e);
                        },
                    };
                    let y = match self.parse_number() {
                        Ok(v) => v,
                        Err(e) => {
                            proof {
                                assert(spec_track_items(rem0, tr0) is Err);
                            }
                            return Err(e);
                        },
                    };
                    tr.start = Point { x, y };
                    match self.skip_sexp() {
                        Ok(()) => (),
                        Err(e) => {
                            return Err(e);
                        },
                    }
                } else if self.peek_next_kw("end") {
                    self.advance();
                    self.advance();
                    proof {
                        assert(self.rem() =~= rem0.skip(2));
                    }
                    let x = match self.parse_number() {
                        Ok(v) => v,
                        Err(e) => {
                            proof {
                                assert(spec_track_items(rem0, tr0) is Err);
                            }
                            return Err(e);
                        },
                    };
                    let y = match self.parse_number() {
                        Ok(v) => v,
                        Err(e) => {
                            proof {
                                assert(spec_track_items(rem0, tr0) is Err);
                            }
                            return Err(e);
                        },
                    };
                    tr.end = Point { x, y };
                    match self.skip_sexp() {
                        Ok(()) => (),
                        Err(e) => {
                            return Err(e);
                        },
                    }
                } else if self.peek_next_kw("width") {
                    self.advance();
                    self.advance();
                    proof {
                        assert(self.rem() =~= rem0.skip(2));
                    }
                    let w = match self.parse_number() {
                        Ok(v) => v,
                        Err(e) => {
                            proof {
                                assert(spec_track_items(rem0, tr0) is Err);
                            }
                            return Err(e);
                        },
                    };
                    tr.width = w;
                    match self.skip_sexp() {
                        Ok(()) => (),
                        Err(e) => {
                            return Err(e);
                        },
                    }
                } else if self.peek_next_kw("layer") {
                    self.advance();
                    self.advance();
                    proof {
                        assert(self.rem() =~= rem0.skip(2));
                    }
                    let layer = match self.parse_string() {
                        Ok(v) => v,
                        Err(e) => {
                            proof {
                                assert(spec_track_items(rem0, tr0) is Err);
                            }
                            return Err(e);
                        },
                    };
                    tr.layer = layer;
                    match self.skip_sexp() {
                        Ok(()) => (),
                        Err(e) => {
                            return Err(e);
                        },
                    }
                } else if self.peek_next_kw("net") {
                    self.advance();
                    self.advance();
                    proof {
                        assert(self.rem() =~= rem0.skip(2));
                    }
                    match self.parse_number() {
                        Ok(_) => (),
                        Err(e) => {
                            proof {
                                assert(spec_track_items(rem0, tr0) is Err);
                            }
                            return Err(e);
                        },
                    }
                    let name = match self.parse_string() {
                        Ok(v) => v,
                        Err(e) => {
                            proof {
                                assert(spec_track_items(rem0, tr0) is Err);
                            }
                            return Err(e);
                        },
                    };
                    tr.net = Some(name);
                    match self.skip_sexp() {
                        Ok(()) => (),
                        Err(e) => {
                            return Err(e);
                        },
                    }
                } else {
                    self.advance();
                    proof {
                        assert(self.rem() =~= rem0.skip(1));
                    }
                    match self.skip_sexp() {
                        Ok(()) => (),
                        Err(e) => {
                            return Err(e);
                        },
                    }
                }
            } else {
                self.advance();
                proof {
                    assert(self.rem() =~= rem0.skip(1));
                }
            }
        }
        self.advance();
        Ok(())
    }

    /// Parse a whole track record: start, end, width, layer and optional
    /// net; anything else inside it is skipped.
    fn parse_track(&mut self) -> (r: Result<Track, KicadError>)
        requires
            old(self).wf(),
        ensures
            final(self).wf(),
            final(self).toks() == old(self).toks(),
            match spec_track(old(self).rem()) {
                Ok((tv, rest)) => r is Ok && r->Ok_0@ == tv && final(self).rem() == rest,
                Err(k) => r is Err && engine::matches_kind(r->Err_0, k),
            },
    {
        match self.expect(&Token::LParen) {
            Ok(()) => (),
            Err(e) => {
                return Err(e);
            },
        }
        match self.expect_kw("segment") {
            Ok(()) => (),
            Err(e) => {
                return Err(e);
            },
        }
        let mut tr = Track {
            start: Point { x: Decimal::zero(), y: Decimal::zero() },
            end: Point { x: Decimal::zero(), y: Decimal::zero() },
            width: Decimal::zero(),
            layer: String::new(),
            net: None,
        };
        match self.parse_track_items(&mut tr) {
            Ok(()) => (),
            Err(e) => {
                return Err(e);
            },
        }
        Ok(tr)
    }

    /// Parse a via record's body items into `v`, consuming the record's
    /// closing parenthesis.
    #[verifier::rlimit(60)]
    fn parse_via_items(&mut self, v: &mut Via) -> (r: Result<(), KicadError>)
        requires
            old(self).wf(),
        ensures
            final(self).wf(),
            final(self).toks() == old(self).toks(),
            match spec_via_items(old(self).rem(), old(v)@) {
                Ok((vv, rest)) => r is Ok && final(v)@ == vv && final(self).rem() == rest,
                Err(k) => r is Err && engine::matches_kind(r->Err_0, k),
            },
    {
        while !self.at_rparen()
            invariant
                self.wf(),
                self.toks() == old(self).toks(),
                spec_via_items(old(self).rem(), old(v)@) == spec_via_items(
                    self.rem(),
                    v@,
                ),
            decreases self.rem().len(),
        {
            let ghost rem0 = self.rem();
            let ghost v0 = v@;
            if self.current().is_none() {
                return Err(
                    KicadError::UnexpectedToken(
                        String::from_str("unexpected end of input in via record"),
                    ),
                );
            }
            if self.at_lparen() {
                if self.peek_next_kw("at") {
                    self.advance();
                    proof {
                        assert(self.rem() =~= rem0.skip(1));
                    }
                    let (pos, _rot) = match self.parse_at() {
                        Ok(p) => p,
                        Err(e) => {
                            proof {
                                assert(spec_via_items(rem0, v0) is Err);
                            }
                            return Err(e);
                        },
                    };
                    v.position = pos;
                    match self.skip_sexp() {
                        Ok(()) => (),
                        Err(e) => {
                            return Err(e);
                        },
                    }
                } else if self.peek_next_kw("size") {
                    self.advance();
                    self.advance();
                    proof {
                        assert(self.rem() =~= rem0.skip(2));
                    }
                    let s = match self.parse_number() {
                        Ok(x) => x,
                        Err(e) => {
                            proof {
                                assert(spec_via_items(rem0, v0) is Err);
                            }
                            return Err(e);
                        },
                    };
                    v.size = s;
                    match self.skip_sexp() {
                        Ok(()) => (),
                        Err(e) => {
                            return Err(e);
                        },
                    }
                } else if self.peek_next_kw("drill") {
                    self.advance();
                    self.advance();
                    proof {
                        assert(self.rem() =~= rem0.skip(2));
                    }
                    let d = match self.parse_number() {
                        Ok(x) => x,
                        Err(e) => {
                            proof {
                                assert(spec_via_items(rem0, v0) is Err);
                            }
                            return Err(e);
                        },
                    };
                    v.drill = d;
                    match self.skip_sexp() {
                        Ok(()) => (),
                        Err(e) => {
                            return Err(e);
                        },
                    }
                } else if self.peek_next_kw("layers") {
                    self.advance();
                    self.advance();
                    proof {
                        assert(self.rem() =~= rem0.skip(2));
                    }
                    match self.parse_name_list(&mut v.layers) {
                        Ok(()) => (),
                        Err(e) => {
                            proof {
                                assert(spec_via_items(rem0, v0) is Err);
                            }
                            return Err(e);
                        },
                    }
                } else if self.peek_next_kw("net") {
                    self.advance();
                    self.advance();
                    proof {
                        assert(self.rem() =~= rem0.skip(2));
                    }
                    match self.parse_number() {
                        Ok(_) => (),
                        Err(e) => {
                            proof {
                                assert(spec_via_items(rem0, v0) is Err);
                            }
                            return Err(e);
                        },
                    }
                    if self.at_text() {
                        let name = match self.parse_string() {
                            Ok(x) => x,
                            Err(e) => {
                                return Err(e);
                            },
                        };
                        v.net = Some(name);
                    }
                    match self.skip_sexp() {
                        Ok(()) => (),
                        Err(e) => {
                            return Err(e);
                        },
                    }
                } else {
                    self.advance();
                    proof {
                        assert(self.rem() =~= rem0.skip(1));
                    }
                    match self.skip_sexp() {
                        Ok(()) => (),
                        Err(e) => {
                            return Err(e);
                        },
                    }
                }
            } else {
                self.advance();
                proof {
                    assert(self.rem() =~= rem0.skip(1));
                }
            }
        }
        self.advance();
        Ok(())
    }

    /// Parse a whole via record: position, size, drill, its layer pair and
    /// optional net; anything else inside it is skipped.
    fn parse_via(&mut self) -> (r: Result<Via, KicadError>)
        requires
            old(self).wf(),
        ensures
            final(self).wf(),
            final(self).toks() == old(self).toks(),
            match spec_via(old(self).rem()) {
                Ok((vv, rest)) => r is Ok && r->Ok_0@ == vv && final(self).rem() == rest,
                Err(k) => r is Err && engine::matches_kind(r->Err_0, k),
            },
    {
        match self.expect(&Token::LParen) {
            Ok(()) => (),
            Err(e) => {
                return Err(e);
            },
        }
        match self.expect_kw("via") {
            Ok(()) => (),
            Err(e) => {
                return Err(e);
            },
        }
        let mut v = Via {
            position: Point { x: Decimal::zero(), y: Decimal::zero() },
            size: Decimal::zero(),
            drill: Decimal::zero(),
            layers: Vec::new(),
            net: None,
        };
        proof {
            assert(v@.layers =~= Seq::<Seq<char>>::empty());
        }
        match self.parse_via_items(&mut v) {
            Ok(()) => (),
            Err(e) => {
                return Err(e);
            },
        }
        Ok(v)
    }

    /// Parse a zone record's body items into `z`, consuming the record's
    /// closing parenthesis.
    #[verifier::rlimit(60)]
    fn parse_zone_items(&mut self, z: &mut Zone) -> (r: Result<(), KicadError>)
        requires
            old(self).wf(),
        ensures
            final(self).wf(),
            final(self).toks() == old(self).toks(),
            match spec_zone_items(old(self).rem(), old(z)@) {
                Ok((zv, rest)) => r is Ok && final(z)@ == zv && final(self).rem() == rest,
                Err(k) => r is Err && engine::matches_kind(r->Err_0, k),
            },
    {
        while !self.at_rparen()
            invariant
                self.wf(),
                self.toks() == old(self).toks(),
                spec_zone_items(old(self).rem(), old(z)@) == spec_zone_items(
                    self.rem(),
                    z@,
                ),
            decreases self.rem().len(),
        {
            let ghost rem0 = self.rem();
            let ghost z0 = z@;
            if self.current().is_none() {
                return Err(
                    KicadError::UnexpectedToken(
                        String::from_str("unexpected end of input in zone record"),
                    ),
                );
            }
            if self.at_lparen() {
                if self.peek_next_kw("net_name") {
                    self.advance();
                    self.advance();
                    proof {
                        assert(self.rem() =~= rem0.skip(2));
                    }
                    let name = match self.parse_string() {
                        Ok(x) => x,
                        Err(e) => {
                            proof {
                                assert(spec_zone_items(rem0, z0) is Err);
                            }
                            return Err(e);
                        },
                    };
                    z.net = Some(name);
                    match self.skip_sexp() {
                        Ok(()) => (),
                        Err(e) => {
                            return Err(e);
                        },
                    }
                } else if self.peek_next_kw("layer") {
                    self.advance();
                    self.advance();
                    proof {
                        assert(self.rem() =~= rem0.skip(2));
                    }
                    let layer = match self.parse_string() {
                        Ok(x) => x,
                        Err(e) => {
                            proof {
                                assert(spec_zone_items(rem0, z0) is Err);
                            }
                            return Err(e);
                        },
                    };
                    z.layer = layer;
                    match self.skip_sexp() {
                        Ok(()) => (),
                        Err(e) => {
                            return Err(e);
                        },
                    }
                } else if self.peek_next_kw("priority") {
                    self.advance();
                    self.advance();
                    proof {
                        assert(self.rem() =~= rem0.skip(2));
                    }
                    let p = match self.parse_number() {
                        Ok(x) => x,
                        Err(e) => {
                            proof {
                                assert(spec_zone_items(rem0, z0) is Err);
                            }
                            return Err(e);
                        },
                    };
                    z.priority = p.to_i32_trunc();
                    match self.skip_sexp() {
                        Ok(()) => (),
                        Err(e) => {
                            return Err(e);
                        },
                    }
                } else if self.peek_next_kw("connect_pads") {
                    self.advance();
                    self.advance();
                    proof {
                        assert(self.rem() =~= rem0.skip(2));
                    }
                    z.connect_pads = self.at_kw("yes");
                    proof {
                        assert(rem0.skip(2).len() > 0 ==> rem0.skip(2)[0] == rem0[2]);
                    }
                    match self.skip_sexp() {
                        Ok(()) => (),
                        Err(e) => {
                            return Err(e);
                        },
                    }
                } else if self.peek_next_kw("polygon") {
                    self.advance();
                    self.advance();
                    proof {
                        assert(self.rem() =~= rem0.skip(2));
                    }
                    match self.expect(&Token::LParen) {
                        Ok(()) => (),
                        Err(e) => {
                            proof {
                                assert(spec_zone_items(rem0, z0) is Err);
                            }
                            return Err(e);
                        },
                    }
                    match self.expect_kw("pts") {
                        Ok(()) => (),
                        Err(e) => {
                            proof {
                                assert(spec_zone_items(rem0, z0) is Err);
                            }
                            return Err(e);
                        },
                    }
                    let mut pts: Vec<Point> = Vec::new();
                    proof {
                        assert(pts.deep_view() =~= Seq::<PointV>::empty());
                    }
                    match self.parse_pt_list(&mut pts) {
                        Ok(()) => (),
                        Err(e) => {
                            proof {
                                assert(spec_zone_items(rem0, z0) is Err);
                            }
                            return Err(e);
                        },
                    }
                    z.polygon = pts;
                    match self.skip_sexp() {
                        Ok(()) => (),
                        Err(e) => {
                            return Err(e);
                        },
                    }
                } else {
                    self.advance();
                    proof {
                        assert(self.rem() =~= rem0.skip(1));
                    }
                    match self.skip_sexp() {
                        Ok(()) => (),
                        Err(e) => {
                            return Err(e);
                        },
                    }
                }
            } else {
                self.advance();
                proof {
                    assert(self.rem() =~= rem0.skip(1));
                }
            }
        }
        self.advance();
        Ok(())
    }

    /// Parse a whole zone record: net name, layer, priority, pad
    /// connection and bounding polygon; anything else inside it is
    /// skipped.
    fn parse_zone(&mut self) -> (r: Result<Zone, KicadError>)
        requires
            old(self).wf(),
        ensures
            final(self).wf(),
            final(self).toks() == old(self).toks(),
            match spec_zone(old(self).rem()) {
                Ok((zv, rest)) => r is Ok && r->Ok_0@ == zv && final(self).rem() == rest,
                Err(k) => r is Err && engine::matches_kind(r->Err_0, k),
            },
    {
        match self.expect(&Token::LParen) {
            Ok(()) => (),
            Err(e) => {
                return Err(e);
            },
        }
        match self.expect_kw("zone") {
            Ok(()) => (),
            Err(e) => {
                return Err(e);
            },
        }
        let mut z = Zone {
            net: None,
            layer: String::new(),
            priority: 0,
            connect_pads: false,
            polygon: Vec::new(),
        };
        proof {
            assert(z@.polygon =~= Seq::<PointV>::empty());
        }
        match self.parse_zone_items(&mut z) {
            Ok(()) => (),
            Err(e) => {
                return Err(e);
            },
        }
        Ok(z)
    }

    /// Parse a graphic or text record's body items into `g`, consuming
    /// the record's closing parenthesis.
    #[verifier::rlimit(60)]
    fn parse_gr_items(&mut self, g: &mut GrParts) -> (r: Result<(), KicadError>)
        requires
            old(self).wf(),
        ensures
            final(self).wf(),
            final(self).toks() == old(self).toks(),
            match spec_gr_items(old(self).rem(), old(g)@) {
                Ok((gv, rest)) => r is Ok && final(g)@ == gv && final(self).rem() == rest,
                Err(k) => r is Err && engine::matches_kind(r->Err_0, k),
            },
    {
        while !self.at_rparen()
            invariant
                self.wf(),
                self.toks() == old(self).toks(),
                spec_gr_items(old(self).rem(), old(g)@) == spec_gr_items(self.rem(), g@),
            decreases self.rem().len(),
        {
            let ghost rem0 = self.rem();
            let ghost g0 = g@;
            if self.current().is_none() {
                return Err(
                    KicadError::UnexpectedToken(
                        String::from_str("unexpected end of input in graphic record"),
                    ),
                );
            }
            if self.at_lparen() {
                if self.peek_next_kw("start") {
                    self.advance();
                    self.advance();
                    proof {
                        assert(self.rem() =~= rem0.skip(2));
                    }
                    let x = match self.parse_number() {
                        Ok(v) => v,
                        Err(e) => {
                            proof {
                                assert(spec_gr_items(rem0, g0) is Err);
                            }
                            return Err(e);
                        },
                    };
                    let y = match self.parse_number() {
                        Ok(v) => v,
                        Err(e) => {
                            proof {
                                assert(spec_gr_items(rem0, g0) is Err);
                            }
                            return Err(e);
                        },
                    };
                    g.start = Point { x, y };
                    match self.skip_sexp() {
                        Ok(()) => (),
                        Err(e) => {
                            return Err(e);
                        },
                    }
                } else if self.peek_next_kw("end") {
                    self.advance();
                    self.advance();
                    proof {
                        assert(self.rem() =~= rem0.skip(2));
                    }
                    let x = match self.parse_number() {
                        Ok(v) => v,
                        Err(e) => {
                            proof {
                                assert(spec_gr_items(rem0, g0) is Err);
                            }
                            return Err(e);
                        },
                    };
                    let y = match self.parse_number() {
                        Ok(v) => v,
                        Err(e) => {
                            proof {
                                assert(spec_gr_items(rem0, g0) is Err);
                            }
                            return Err(e);
                        },
                    };
                    g.end = Point { x, y };
                    match self.skip_sexp() {
                        Ok(()) => (),
                        Err(e) => {
                            return Err(e);
                        },
                    }
                } else if self.peek_next_kw("at") {
                    self.advance();
                    proof {
                        assert(self.rem() =~= rem0.skip(1));
                    }
                    let (pos, _rot) = match self.parse_at() {
                        Ok(v) => v,
                        Err(e) => {
                            proof {
                                assert(spec_gr_items(rem0, g0) is Err);
                            }
                            return Err(e);
                        },
                    };
                    g.start = pos;
                    match self.skip_sexp() {
                        Ok(()) => (),
                        Err(e) => {
                            return Err(e);
                        },
                    }
                } else if self.peek_next_kw("width") {
                    self.advance();
                    self.advance();
                    proof {
                        assert(self.rem() =~= rem0.skip(2));
                    }
                    let w = match self.parse_number() {
                        Ok(v) => v,
                        Err(e) => {
                            proof {
                                assert(spec_gr_items(rem0, g0) is Err);
                            }
                            return Err(e);
                        },
                    };
                    g.width = w;
                    match self.skip_sexp() {
                        Ok(()) => (),
                        Err(e) => {
                            return Err(e);
                        },
                    }
                } else if self.peek_next_kw("layer") {
                    self.advance();
                    self.advance();
                    proof {
                        assert(self.rem() =~= rem0.skip(2));
                    }
                    let layer = match self.parse_string() {
                        Ok(v) => v,
                        Err(e) => {
                            proof {
                                assert(spec_gr_items(rem0, g0) is Err);
                            }
                            return Err(e);
                        },
                    };
                    g.layer = layer;
                    match self.skip_sexp() {
                        Ok(()) => (),
                        Err(e) => {
                            return Err(e);
                        },
                    }
                } else if self.peek_next_kw("pts") {
                    self.advance();
                    self.advance();
                    proof {
                        assert(self.rem() =~= rem0.skip(2));
                    }
                    let mut pts: Vec<Point> = Vec::new();
                    proof {
                        assert(pts.deep_view() =~= Seq::<PointV>::empty());
                    }
                    match self.parse_pt_list(&mut pts) {
                        Ok(()) => (),
                        Err(e) => {
                            proof {
                                assert(spec_gr_items(rem0, g0) is Err);
                            }
                            return Err(e);
                        },
                    }
                    g.pts = pts;
                } else if self.peek_next_kw("fill") {
                    self.advance();
                    self.advance();
                    proof {
                        assert(self.rem() =~= rem0.skip(2));
                        assert(rem0.skip(2).len() > 0 ==> rem0.skip(2)[0] == rem0[2]);
                    }
                    g.filled = self.at_kw("yes") || self.at_kw("solid");
                    match self.skip_sexp() {
                        Ok(()) => (),
                        Err(e) => {
                            return Err(e);
                        },
                    }
                } else {
                    self.advance();
                    proof {
                        assert(self.rem() =~= rem0.skip(1));
                    }
                    match self.skip_sexp() {
                        Ok(()) => (),
                        Err(e) => {
                            return Err(e);
                        },
                    }
                }
            } else {
                self.advance();
                proof {
                    assert(self.rem() =~= rem0.skip(1));
                }
            }
        }
        self.advance();
        Ok(())
    }

    /// An empty accumulator for a graphic or text record's fields.
    fn gr_parts_new() -> (r: GrParts)
        ensures
            r@ == spec_gr_parts_empty(),
    {
        let r = GrParts {
            start: Point { x: Decimal::zero(), y: Decimal::zero() },
            end: Point { x: Decimal::zero(), y: Decimal::zero() },
            width: Decimal::zero(),
            layer: String::new(),
            pts: Vec::new(),
            filled: false,
        };
        proof {
            assert(r@.pts =~= Seq::<PointV>::empty());
        }
        r
    }

    /// Parse a graphic line record.
    fn parse_gr_line(&mut self) -> (r: Result<Graphic, KicadError>)
        requires
            old(self).wf(),
        ensures
            final(self).wf(),
            final(self).toks() == old(self).toks(),
            match spec_gr_line(old(self).rem()) {
                Ok((gv, rest)) => r is Ok && r->Ok_0@ == gv && final(self).rem() == rest,
                Err(k) => r is Err && engine::matches_kind(r->Err_0, k),
            },
    {
        match self.expect(&Token::LParen) {
            Ok(()) => (),
            Err(e) => {
                return Err(e);
            },
        }
        match self.expect_kw("gr_line") {
            Ok(()) => (),
            Err(e) => {
                return Err(e);
            },
        }
        let mut g = Self::gr_parts_new();
        match self.parse_gr_items(&mut g) {
            Ok(()) => (),
            Err(e) => {
                return Err(e);
            },
        }
        Ok(Graphic::Line { start: g.start, end: g.end, layer: g.layer, width: g.width })
    }

    /// Parse a graphic rectangle record.
    fn parse_gr_rect(&mut self) -> (r: Result<Graphic, KicadError>)
        requires
            old(self).wf(),
        ensures
            final(self).wf(),
            final(self).toks() == old(self).toks(),
            match spec_gr_rect(old(self).rem()) {
                Ok((gv, rest)) => r is Ok && r->Ok_0@ == gv && final(self).rem() == rest,
                Err(k) => r is Err && engine::matches_kind(r->Err_0, k),
            },
    {
        match self.expect(&Token::LParen) {
            Ok(()) => (),
            Err(e) => {
                return Err(e);
            },
        }
        match self.expect_kw("gr_rect") {
            Ok(()) => (),
            Err(e) => {
                return Err(e);
            },
        }
        let mut g = Self::gr_parts_new();
        match self.parse_gr_items(&mut g) {
            Ok(()) => (),
            Err(e) => {
                return Err(e);
            },
        }
        Ok(
            Graphic::Rectangle {
                rect: Rect { start: g.start, end: g.end },
                layer: g.layer,
                width: g.width,
                filled: g.filled,
            },
        )
    }

    /// Parse a graphic polygon record.
    fn parse_gr_poly(&mut self) -> (r: Result<Graphic, KicadError>)
        requires
            old(self).wf(),
        ensures
            final(self).wf(),
            final(self).toks() == old(self).toks(),
            match spec_gr_poly(old(self).rem()) {
                Ok((gv, rest)) => r is Ok && r->Ok_0@ == gv && final(self).rem() == rest,
                Err(k) => r is Err && engine::matches_kind(r->Err_0, k),
            },
    {
        match self.expect(&Token::LParen) {
            Ok(()) => (),
            Err(e) => {
                return Err(e);
            },
        }
        match self.expect_kw("gr_poly") {
            Ok(()) => (),
            Err(e) => {
                return Err(e);
            },
        }
        let mut g = Self::gr_parts_new();
        match self.parse_gr_items(&mut g) {
            Ok(()) => (),
            Err(e) => {
                return Err(e);
            },
        }
        Ok(
            Graphic::Polygon {
                points: g.pts,
                layer: g.layer,
                width: g.width,
                filled: g.filled,
            },
        )
    }

    /// Parse a text record; styling is not interpreted.
    fn parse_gr_text(&mut self) -> (r: Result<Text, KicadError>)
        requires
            old(self).wf(),
        ensures
            final(self).wf(),
            final(self).toks() == old(self).toks(),
            match spec_gr_text(old(self).rem()) {
                Ok((tv, rest)) => r is Ok && r->Ok_0@ == tv && final(self).rem() == rest,
                Err(k) => r is Err && engine::matches_kind(r->Err_0, k),
            },
    {
        match self.expect(&Token::LParen) {
            Ok(()) => (),
            Err(e) => {
                return Err(e);
            },
        }
        match self.expect_kw("gr_text") {
            Ok(()) => (),
            Err(e) => {
                return Err(e);
            },
        }
        let txt = match self.parse_string() {
            Ok(v) => v,
            Err(e) => {
                return Err(e);
            },
        };
        let mut g = Self::gr_parts_new();
        match self.parse_gr_items(&mut g) {
            Ok(()) => (),
            Err(e) => {
                return Err(e);
            },
        }
        Ok(
            Text {
                text: txt,
                position: g.start,
                layer: g.layer,
                effects: TextEffects {
                    font_size: Point { x: Decimal::zero(), y: Decimal::zero() },
                    thickness: Decimal::zero(),
                    bold: false,
                    italic: false,
                    justify: None,
                },
            },
        )
    }

    /// Parse the document's top-level records into `pcb`, consuming the
    /// document's closing parenthesis.
    #[verifier::rlimit(100)]
    fn parse_doc_items(&mut self, pcb: &mut PcbFile) -> (r: Result<(), KicadError>)
        requires
            old(self).wf(),
        ensures
            final(self).wf(),
            final(self).toks() == old(self).toks(),
            match spec_doc_items(old(self).rem(), old(pcb)@) {
                Ok((dv, rest)) => r is Ok && final(pcb)@ == dv && final(self).rem() == rest,
                Err(k) => r is Err && engine::matches_kind(r->Err_0, k),
            },
    {
        while !self.at_rparen()
            invariant
                self.wf(),
                self.toks() == old(self).toks(),
                spec_doc_items(old(self).rem(), old(pcb)@) == spec_doc_items(
                    self.rem(),
                    pcb@,
                ),
            decreases self.rem().len(),
        {
            let ghost rem0 = self.rem();
            let ghost pcb0 = pcb@;
            if self.current().is_none() {
                return Err(
                    KicadError::UnexpectedToken(
                        String::from_str("unexpected end of input in document"),
                    ),
                );
            }
            if self.at_lparen() {
                if self.peek_next_kw("version") {
                    self.advance();
                    self.advance();
                    proof {
                        assert(self.rem() =~= rem0.skip(2));
                    }
                    if self.at_number() {
                        let v = match self.parse_number() {
                            Ok(x) => x,
                            Err(e) => {
                                return Err(e);
                            },
                        };
                        pcb.version = v.to_text();
                        proof {
                            assert(self.rem() =~= rem0.skip(3));
                        }
                        match self.expect(&Token::RParen) {
                            Ok(()) => (),
                            Err(e) => {
                                proof {
                                    assert(spec_doc_items(rem0, pcb0) is Err);
                                }
                                return Err(e);
                            },
                        }
                    } else {
                        let v = match self.parse_string() {
                            Ok(x) => x,
                            Err(e) => {
                                proof {
                                    assert(spec_doc_items(rem0, pcb0) is Err);
                                }
                                return Err(e);
                            },
                        };
                        pcb.version = v;
                        match self.expect(&Token::RParen) {
                            Ok(()) => (),
                            Err(e) => {
                                proof {
                                    assert(spec_doc_items(rem0, pcb0) is Err);
                                }
                                return Err(e);
                            },
                        }
                    }
                } else if self.peek_next_kw("generator") {
                    self.advance();
                    self.advance();
                    proof {
                        assert(self.rem() =~= rem0.skip(2));
                    }
                    let g = match self.parse_string() {
                        Ok(x) => x,
                        Err(e) => {
                            proof {
                                assert(spec_doc_items(rem0, pcb0) is Err);
                            }
                            return Err(e);
                        },
                    };
                    pcb.generator = g;
                    match self.expect(&Token::RParen) {
                        Ok(()) => (),
                        Err(e) => {
                            proof {
                                assert(spec_doc_items(rem0, pcb0) is Err);
                            }
                            return Err(e);
                        },
                    }
                } else if self.peek_next_kw("layers") {
                    let m = match self.parse_layers() {
                        Ok(x) => x,
                        Err(e) => {
                            proof {
                                assert(spec_doc_items(rem0, pcb0) is Err);
                            }
                            return Err(e);
                        },
                    };
                    pcb.layers = m;
                    proof {
                        lemma_layers_len(rem0);
                    }
                } else if self.peek_next_kw("footprint") {
                    let ghost fps0 = pcb.footprints.deep_view();
                    let fp = match self.parse_footprint() {
                        Ok(x) => x,
                        Err(e) => {
                            proof {
                                assert(spec_doc_items(rem0, pcb0) is Err);
                            }
                            return Err(e);
                        },
                    };
                    let ghost fv = fp@;
                    pcb.footprints.push(fp);
                    proof {
                        lemma_footprint_len(rem0);
                        assert(pcb.footprints.deep_view() =~= fps0.push(fv));
                    }
                } else if self.peek_next_kw("segment") {
                    let ghost trs0 = pcb.tracks.deep_view();
                    let tr = match self.parse_track() {
                        Ok(x) => x,
                        Err(e) => {
                            proof {
                                assert(spec_doc_items(rem0, pcb0) is Err);
                            }
                            return Err(e);
                        },
                    };
                    let ghost tv = tr@;
                    pcb.tracks.push(tr);
                    proof {
                        lemma_track_len(rem0);
                        assert(pcb.tracks.deep_view() =~= trs0.push(tv));
                    }
                } else if self.peek_next_kw("via") {
                    let ghost vs0 = pcb.vias.deep_view();
                    let v = match self.parse_via() {
                        Ok(x) => x,
                        Err(e) => {
                            proof {
                                assert(spec_doc_items(rem0, pcb0) is Err);
                            }
                            return Err(e);
                        },
                    };
                    let ghost vv = v@;
                    pcb.vias.push(v);
                    proof {
                        lemma_via_len(rem0);
                        assert(pcb.vias.deep_view() =~= vs0.push(vv));
                    }
                } else if self.peek_next_kw("zone") {
                    let ghost zs0 = pcb.zones.deep_view();
                    let z = match self.parse_zone() {
                        Ok(x) => x,
                        Err(e) => {
                            proof {
                                assert(spec_doc_items(rem0, pcb0) is Err);
                            }
                            return Err(e);
                        },
                    };
                    let ghost zv = z@;
                    pcb.zones.push(z);
                    proof {
                        lemma_zone_len(rem0);
                        assert(pcb.zones.deep_view() =~= zs0.push(zv));
                    }
                } else if self.peek_next_kw("gr_line") {
                    let ghost gs0 = pcb.graphics.deep_view();
                    let g = match self.parse_gr_line() {
                        Ok(x) => x,
                        Err(e) => {
                            proof {
                                assert(spec_doc_items(rem0, pcb0) is Err);
                            }
                            return Err(e);
                        },
                    };
                    let ghost gv = g@;
                    pcb.graphics.push(g);
                    proof {
                        lemma_gr_record_len(rem0);
                        assert(pcb.graphics.deep_view() =~= gs0.push(gv));
                    }
                } else if self.peek_next_kw("gr_rect") {
                    let ghost gs0 = pcb.graphics.deep_view();
                    let g = match self.parse_gr_rect() {
                        Ok(x) => x,
                        Err(e) => {
                            proof {
                                assert(spec_doc_items(rem0, pcb0) is Err);
                            }
                            return Err(e);
                        },
                    };
                    let ghost gv = g@;
                    pcb.graphics.push(g);
                    proof {
                        lemma_gr_record_len(rem0);
                        assert(pcb.graphics.deep_view() =~= gs0.push(gv));
                    }
                } else if self.peek_next_kw("gr_poly") {
                    let ghost gs0 = pcb.graphics.deep_view();
                    let g = match self.parse_gr_poly() {
                        Ok(x) => x,
                        Err(e) => {
                            proof {
                                assert(spec_doc_items(rem0, pcb0) is Err);
                            }
                            return Err(e);
                        },
                    };
                    let ghost gv = g@;
                    pcb.graphics.push(g);
                    proof {
                        lemma_gr_record_len(rem0);
                        assert(pcb.graphics.deep_view() =~= gs0.push(gv));
                    }
                } else if self.peek_next_kw("gr_text") {
                    let ghost xs0 = pcb.texts.deep_view();
                    let x = match self.parse_gr_text() {
                        Ok(v) => v,
                        Err(e) => {
                            proof {
                                assert(spec_doc_items(rem0, pcb0) is Err);
                            }
                            return Err(e);
                        },
                    };
                    let ghost xv = x@;
                    pcb.texts.push(x);
                    proof {
                        lemma_gr_record_len(rem0);
                        assert(pcb.texts.deep_view() =~= xs0.push(xv));
                    }
                } else {
                    self.advance();
                    proof {
                        assert(self.rem() =~= rem0.skip(1));
                    }
                    match self.skip_sexp() {
                        Ok(()) => (),
                        Err(e) => {
                            return Err(e);
                        },
                    }
                }
            } else {
                self.advance();
                proof {
                    assert(self.rem() =~= rem0.skip(1));
                }
            }
        }
        self.advance();
        Ok(())
    }

    /// Parse a whole layout document from the token sequence.
    fn parse(&mut self) -> (r: Result<PcbFile, KicadError>)
        requires
            old(self).wf(),
        ensures
            final(self).wf(),
            match spec_document(old(self).rem()) {
                Ok(doc) => r is Ok && r->Ok_0@ == doc,
                Err(k) => r is Err && engine::matches_kind(r->Err_0, k),
            },
    {
        match self.expect(&Token::LParen) {
            Ok(()) => (),
            Err(e) => {
                return Err(e);
            },
        }
        match self.expect_kw("kicad_pcb") {
            Ok(()) => (),
            Err(e) => {
                return Err(e);
            },
        }
        let mut pcb = PcbFile::new();
        match self.parse_doc_items(&mut pcb) {
            Ok(()) => (),
            Err(e) => {
                return Err(e);
            },
        }
        Ok(pcb)
    }

    /// Full structural parse of a board-layout text: its typed document,
    /// or the structural error that aborted the parse. The result is
    /// exactly the document [`spec_document`] reads from the text's
    /// tokens; no partial structure is exposed on failure.
    pub fn parse_from_str(content: &str) -> (r: Result<PcbFile, KicadError>)
        ensures
            match spec_document(token::spec_tokens(content@)) {
                Ok(doc) => r is Ok && r->Ok_0@ == doc,
                Err(k) => r is Err && engine::matches_kind(r->Err_0, k),
            },
    {
        let mut parser = PcbParser::new(content);
        parser.parse()
    }

    /// Skip one balanced form, starting just past its opening parenthesis.
    pub(crate) fn skip_sexp(&mut self) -> (r: Result<(), KicadError>)
        requires
            old(self).wf(),
        ensures
            final(self).wf(),
            final(self).toks() == old(self).toks(),
            r is Ok,
            final(self).rem() == engine::spec_skip_form(old(self).rem(), 1),
            final(self).rem().len() <= old(self).rem().len(),
    {
        proof {
            engine::lemma_skip_form_len(self.rem(), 1);
        }
        engine::skip_form_at(&self.tokens, &mut self.position);
        Ok(())
    }
}

} // verus!
