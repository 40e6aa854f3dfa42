//! Proved laws of the conversion.

use vstd::prelude::*;

use crate::model::ItemModel;
use crate::model::any_convertible;
use crate::model::cfg_list;
use crate::model::convert_entries;
use crate::model::convert_table_entries;
use crate::model::convert_value;
use crate::model::convertible;
use crate::model::convert_at_spec;
use crate::model::convert_kind_at_cfgs;
use crate::model::convert_kinds;
use crate::model::entries_sorted;
use crate::model::find_idx;
use crate::model::has_key;
use crate::model::insert_entry;
use crate::model::lemma_find_keys_eq;
use crate::model::lemma_find_props;
use crate::model::lex_lt;
use crate::model::located;
use crate::model::lookup;
use crate::model::set_in;
use crate::model::set_located;
use crate::model::sort_entries;
use crate::model::sort_item;
use crate::model::sort_table_entries;
use crate::model::sort_vals_from;
use crate::model::table_like_entries;
use crate::model::target_key;
use crate::model::version_key;
use crate::model::with_entries;

verus! {

/// The root key that replacing a dependency table rewrites: the kind key for
/// a top-level table, the target section's key otherwise.
pub open spec fn root_touched(cfg: Option<Seq<char>>, kind: Seq<char>) -> Seq<char> {
    match cfg {
        None => kind,
        Some(c) => target_key(),
    }
}

pub proof fn lemma_lex_asym(a: Seq<char>, b: Seq<char>)
    ensures
        lex_lt(a, b) ==> !lex_lt(b, a),
    decreases a.len(),
{
    if a.len() != 0 && b.len() != 0 && a[0] == b[0] {
        lemma_lex_asym(a.drop_first(), b.drop_first());
    }
}

pub proof fn lemma_lex_total(a: Seq<char>, b: Seq<char>)
    ensures
        a != b ==> lex_lt(a, b) || lex_lt(b, a),
    decreases a.len(),
{
    if a.len() == 0 && b.len() == 0 {
        assert(a =~= b);
    } else if a.len() != 0 && b.len() != 0 && a[0] == b[0] {
        let da = a.drop_first();
        let db = b.drop_first();
        assert(forall|j: int| 0 <= j < da.len() ==> #[trigger] da[j] == a[j + 1]);
        assert(forall|j: int| 0 <= j < db.len() ==> #[trigger] db[j] == b[j + 1]);
        lemma_lex_total(da, db);
        if da == db {
            assert forall|i: int| 0 <= i < a.len() implies a[i] == b[i] by {
                if i > 0 {
                    assert(da[i - 1] == a[i]);
                    assert(db[i - 1] == b[i]);
                }
            }
            assert(a =~= b);
        }
    } else if a.len() != 0 && b.len() != 0 {
        assert(a[0] != b[0]);
        assert((a[0] as int) != (b[0] as int));
    }
}

pub proof fn lemma_lex_trans(a: Seq<char>, b: Seq<char>, c: Seq<char>)
    ensures
        lex_lt(a, b) && lex_lt(b, c) ==> lex_lt(a, c),
    decreases a.len(),
{
    if a.len() != 0 && b.len() != 0 && c.len() != 0 {
        lemma_lex_trans(a.drop_first(), b.drop_first(), c.drop_first());
    }
}

/// `!lex_lt` is transitive: what holds between neighbours of a sorted
/// sequence holds between any two of its entries.
pub proof fn lemma_lex_nlt_trans(a: Seq<char>, b: Seq<char>, c: Seq<char>)
    ensures
        !lex_lt(b, a) && !lex_lt(c, b) ==> !lex_lt(c, a),
{
    if !lex_lt(b, a) && !lex_lt(c, b) && lex_lt(c, a) {
        lemma_lex_total(a, b);
        if a == b {
        } else if lex_lt(a, b) {
            lemma_lex_trans(c, a, b);
        }
    }
}

#[verifier::rlimit(60)]
pub proof fn lemma_insert_entry_props(e: (Seq<char>, ItemModel), s: Seq<(Seq<char>, ItemModel)>)
    requires
        entries_sorted(s),
    ensures
        entries_sorted(insert_entry(e, s)),
        insert_entry(e, s).len() == s.len() + 1,
        forall|x: (Seq<char>, ItemModel)|
            #[trigger] insert_entry(e, s).contains(x) <==> (x == e || s.contains(x)),
    decreases s.len(),
{
    let out = insert_entry(e, s);
    if s.len() == 0 {
        assert(out =~= seq![e]);
        assert forall|x: (Seq<char>, ItemModel)| #[trigger]
            out.contains(x) <==> (x == e || s.contains(x)) by {
            if x == e {
                assert(out[0] == e);
            }
            if out.contains(x) {
                let w = choose|i: int| 0 <= i < out.len() && out[i] == x;
                assert(w == 0);
            }
        }
    } else if !lex_lt(s[0].0, e.0) {
        assert(out =~= seq![e] + s);
        assert(out[0] == e);
        assert(forall|j: int| 1 <= j < out.len() ==> #[trigger] out[j] == s[j - 1]);
        assert forall|i: int, j: int| 0 <= i < j < out.len() implies !lex_lt(
            (#[trigger] out[j]).0,
            (#[trigger] out[i]).0,
        ) by {
            if i == 0 {
                if j == 1 {
                } else {
                    lemma_lex_nlt_trans(e.0, s[0].0, s[j - 1].0);
                }
            }
        }
        assert forall|x: (Seq<char>, ItemModel)| #[trigger]
            out.contains(x) <==> (x == e || s.contains(x)) by {
            if out.contains(x) {
                let w = choose|i: int| 0 <= i < out.len() && out[i] == x;
                if w > 0 {
                    assert(s[w - 1] == x);
                }
            }
            if x == e {
                assert(out[0] == e);
            }
            if s.contains(x) {
                let w = choose|i: int| 0 <= i < s.len() && s[i] == x;
                assert(out[w + 1] == x);
            }
        }
    } else {
        let d = s.drop_first();
        assert(forall|j: int| 0 <= j < d.len() ==> #[trigger] d[j] == s[j + 1]);
        assert(entries_sorted(d));
        lemma_insert_entry_props(e, d);
        let inner = insert_entry(e, d);
        assert(out =~= seq![s[0]] + inner);
        assert(out[0] == s[0]);
        assert(forall|j: int| 1 <= j < out.len() ==> #[trigger] out[j] == inner[j - 1]);
        lemma_lex_asym(s[0].0, e.0);
        assert forall|i: int, j: int| 0 <= i < j < out.len() implies !lex_lt(
            (#[trigger] out[j]).0,
            (#[trigger] out[i]).0,
        ) by {
            assert(out[j] == inner[j - 1]);
            assert(inner.contains(inner[j - 1]));
            if i == 0 {
                if inner[j - 1] == e {
                } else {
                    assert(d.contains(inner[j - 1]));
                    let w = choose|w: int| 0 <= w < d.len() && #[trigger] d[w] == inner[j - 1];
                    assert(s[w + 1] == inner[j - 1]);
                    assert(!lex_lt(s[w + 1].0, s[0].0));
                }
            } else {
                assert(out[i] == inner[i - 1]);
            }
        }
        assert forall|x: (Seq<char>, ItemModel)| #[trigger]
            out.contains(x) <==> (x == e || s.contains(x)) by {
            if out.contains(x) {
                let w = choose|i: int| 0 <= i < out.len() && out[i] == x;
                if w == 0 {
                    assert(s[0] == x);
                    assert(s.contains(x));
                } else {
                    assert(inner[w - 1] == x);
                    assert(inner.contains(x));
                    if !(x == e) {
                        assert(d.contains(x));
                        let v = choose|i: int| 0 <= i < d.len() && #[trigger] d[i] == x;
                        assert(s[v + 1] == x);
                        assert(s.contains(x));
                    }
                }
            }
            if x == e {
                assert(inner.contains(e));
                let v = choose|i: int| 0 <= i < inner.len() && #[trigger] inner[i] == e;
                assert(out[v + 1] == e);
                assert(out.contains(x));
            } else if s.contains(x) {
                let w = choose|i: int| 0 <= i < s.len() && #[trigger] s[i] == x;
                if w == 0 {
                    assert(out[0] == x);
                    assert(out.contains(x));
                } else {
                    assert(d[w - 1] == x);
                    assert(d.contains(x));
                    assert(inner.contains(x));
                    let v = choose|i: int| 0 <= i < inner.len() && #[trigger] inner[i] == x;
                    assert(out[v + 1] == x);
                    assert(out.contains(x));
                }
            }
        }
    }
}

pub proof fn lemma_sort_entries_props(s: Seq<(Seq<char>, ItemModel)>)
    ensures
        entries_sorted(sort_entries(s)),
        sort_entries(s).len() == s.len(),
        forall|x: (Seq<char>, ItemModel)| #[trigger] sort_entries(s).contains(x) <==> s.contains(
            x,
        ),
    decreases s.len(),
{
    if s.len() == 0 {
    } else {
        let d = s.drop_first();
        assert(forall|j: int| 0 <= j < d.len() ==> #[trigger] d[j] == s[j + 1]);
        lemma_sort_entries_props(d);
        lemma_insert_entry_props(s[0], sort_entries(d));
        let out = sort_entries(s);
        assert forall|x: (Seq<char>, ItemModel)| #[trigger] out.contains(x) <==> s.contains(
            x,
        ) by {
            if out.contains(x) {
                if x == s[0] {
                    assert(s[0] == x);
                    assert(s.contains(x));
                } else {
                    assert(sort_entries(d).contains(x));
                    assert(d.contains(x));
                    let v = choose|i: int| 0 <= i < d.len() && #[trigger] d[i] == x;
                    assert(s[v + 1] == x);
                    assert(s.contains(x));
                }
            }
            if s.contains(x) {
                let w = choose|i: int| 0 <= i < s.len() && #[trigger] s[i] == x;
                if w == 0 {
                    assert(out.contains(x));
                } else {
                    assert(d[w - 1] == x);
                    assert(d.contains(x));
                    assert(sort_entries(d).contains(x));
                    assert(out.contains(x));
                }
            }
        }
    }
}

pub proof fn lemma_sort_entries_id(s: Seq<(Seq<char>, ItemModel)>)
    requires
        entries_sorted(s),
    ensures
        sort_entries(s) == s,
    decreases s.len(),
{
    if s.len() == 0 {
    } else {
        let d = s.drop_first();
        assert(forall|j: int| 0 <= j < d.len() ==> #[trigger] d[j] == s[j + 1]);
        assert(entries_sorted(d));
        lemma_sort_entries_id(d);
        if d.len() == 0 {
            assert(insert_entry(s[0], d) =~= s);
        } else {
            assert(!lex_lt(d[0].0, s[0].0));
            assert(insert_entry(s[0], d) =~= seq![s[0]] + d);
            assert(seq![s[0]] + d =~= s);
        }
    }
}

/// Applying the per-value sorting from the start, pointwise.
pub proof fn lemma_sort_vals_props(s: Seq<(Seq<char>, ItemModel)>, i: int)
    requires
        0 <= i <= s.len(),
    ensures
        sort_vals_from(s, i).len() == s.len(),
        forall|j: int| 0 <= j < i ==> #[trigger] sort_vals_from(s, i)[j] == s[j],
        forall|j: int|
            i <= j < s.len() ==> #[trigger] sort_vals_from(s, i)[j] == (
                s[j].0,
                sort_item(s[j].1),
            ),
    decreases s.len() - i,
{
    if i < s.len() {
        lemma_sort_vals_props(s, i + 1);
    }
}

/// Sorting a value twice is sorting it once, and so for a whole table.
pub proof fn lemma_sort_item_idem(m: ItemModel)
    ensures
        sort_item(sort_item(m)) == sort_item(m),
    decreases m, 1int,
{
    match m {
        ItemModel::Tab { dotted, entries } => {
            if dotted {
                lemma_sort_table_entries_idem(entries);
            }
        },
        _ => {},
    }
}

pub proof fn lemma_sort_table_entries_idem(es: Seq<(Seq<char>, ItemModel)>)
    ensures
        sort_table_entries(sort_table_entries(es)) == sort_table_entries(es),
        entries_sorted(sort_table_entries(es)),
    decreases es, 0int,
{
    let sv = sort_vals_from(es, 0);
    let inner = sort_entries(sv);
    lemma_sort_vals_props(es, 0);
    lemma_sort_entries_props(sv);
    assert(entries_sorted(inner));
    assert forall|j: int| 0 <= j < inner.len() implies #[trigger] sort_vals_from(inner, 0)[j]
        == inner[j] by {
        lemma_sort_vals_props(inner, 0);
        assert(inner.contains(inner[j]));
        assert(sv.contains(inner[j]));
        let w = choose|w: int| 0 <= w < sv.len() && sv[w] == inner[j];
        assert(inner[j].1 == sort_item(es[w].1));
        lemma_sort_item_idem(es[w].1);
        assert(sort_item(inner[j].1) == inner[j].1);
    }
    lemma_sort_vals_props(inner, 0);
    assert(sort_vals_from(inner, 0) =~= inner);
    lemma_sort_entries_id(inner);
}

/// Converting an already-converted table rewrites nothing: the entries come
/// out unchanged and none of them qualifies for conversion any more.
pub proof fn lemma_convert_table_idempotent(es: Seq<(Seq<char>, ItemModel)>)
    ensures
        convert_table_entries(convert_table_entries(es)) == convert_table_entries(es),
        !any_convertible(convert_table_entries(es)),
{
    let ce = convert_entries(es);
    let sv = sort_vals_from(ce, 0);
    let out = sort_table_entries(ce);
    lemma_sort_vals_props(ce, 0);
    lemma_sort_entries_props(sv);
    assert forall|j: int| 0 <= j < out.len() implies !convertible((#[trigger] out[j]).1) by {
        assert(out.contains(out[j]));
        assert(sv.contains(out[j]));
        let w = choose|w: int| 0 <= w < sv.len() && sv[w] == out[j];
        assert(out[j].1 == sort_item(convert_value(es[w].1)));
    }
    assert(convert_entries(out) =~= out);
    lemma_sort_table_entries_idem(ce);
}

/// Value preservation: a dependency given as a bare string comes out of
/// conversion as a table holding exactly that string under the version key.
pub proof fn lemma_value_preservation(es: Seq<(Seq<char>, ItemModel)>, i: int)
    requires
        0 <= i < es.len(),
        es[i].1 is VStr,
    ensures
        convert_table_entries(es).contains(
            (
                es[i].0,
                ItemModel::Tab { dotted: false, entries: seq![(version_key(), es[i].1)] },
            ),
        ),
{
    let ce = convert_entries(es);
    let sv = sort_vals_from(ce, 0);
    lemma_sort_vals_props(ce, 0);
    assert(sv[i] == (es[i].0, convert_value(es[i].1)));
    assert(sv.contains(sv[i]));
    lemma_sort_entries_props(sv);
}

/// Key preservation: a dependency given as an inline table comes out of
/// conversion as a full table holding exactly the inline table's entries, in
/// their original order.
pub proof fn lemma_key_preservation(es: Seq<(Seq<char>, ItemModel)>, i: int)
    requires
        0 <= i < es.len(),
        es[i].1 matches ItemModel::VInline { entries },
    ensures
        convert_table_entries(es).contains(
            (
                es[i].0,
                ItemModel::Tab {
                    dotted: false,
                    entries: crate::model::table_like_entries(es[i].1).unwrap(),
                },
            ),
        ),
{
    let ce = convert_entries(es);
    let sv = sort_vals_from(ce, 0);
    lemma_sort_vals_props(ce, 0);
    assert(sv[i] == (es[i].0, convert_value(es[i].1)));
    assert(sv.contains(sv[i]));
    lemma_sort_entries_props(sv);
}

/// Replacing the dependency table at one place does not change the rest of
/// the document: root keys stay, entries at other root keys stay, the
/// build-target conditions stay, and the dependency table at every other
/// place stays.
pub proof fn lemma_set_located_frame(
    root: Seq<(Seq<char>, ItemModel)>,
    cfg: Option<Seq<char>>,
    kind: Seq<char>,
    nes: Seq<(Seq<char>, ItemModel)>,
)
    requires
        located(root, cfg, kind) is Some,
        kind != target_key(),
    ensures
        set_located(root, cfg, kind, nes).len() == root.len(),
        forall|j: int|
            0 <= j < root.len() ==> (#[trigger] set_located(root, cfg, kind, nes)[j]).0
                == root[j].0,
        forall|j: int|
            0 <= j < root.len() && root[j].0 != root_touched(cfg, kind) ==> #[trigger] set_located(
                root,
                cfg,
                kind,
                nes,
            )[j] == root[j],
        cfg_list(set_located(root, cfg, kind, nes)) == cfg_list(root),
        forall|c2: Option<Seq<char>>, k2: Seq<char>|
            k2 != target_key() && (c2, k2) != (cfg, kind) ==> #[trigger] located(
                set_located(root, cfg, kind, nes),
                c2,
                k2,
            ) == located(root, c2, k2),
{
    let out = set_located(root, cfg, kind, nes);
    match cfg {
        None => {
            let km = lookup(root, kind).unwrap();
            lemma_find_props(root, kind);
            let fi = find_idx(root, kind);
            assert(out == set_in(root, kind, with_entries(km, nes)));
            assert(forall|j: int|
                0 <= j < root.len() && j != fi ==> #[trigger] out[j] == root[j]);
            assert(out[fi].0 == kind);
            assert forall|k2: Seq<char>| k2 != kind implies #[trigger] lookup(out, k2) == lookup(
                root,
                k2,
            ) by {
                lemma_find_keys_eq(root, out, k2);
                lemma_find_props(root, k2);
                if has_key(root, k2) {
                    assert(root[find_idx(root, k2)].0 == k2);
                    assert(find_idx(root, k2) != fi);
                }
            }
            assert(lookup(out, target_key()) == lookup(root, target_key()));
            assert forall|c2: Option<Seq<char>>, k2: Seq<char>|
                k2 != target_key() && (c2, k2) != (cfg, kind) implies #[trigger] located(
                out,
                c2,
                k2,
            ) == located(root, c2, k2) by {
                match c2 {
                    None => {
                        assert(k2 != kind);
                        assert(lookup(out, k2) == lookup(root, k2));
                    },
                    Some(cc) => {
                        assert(lookup(out, target_key()) == lookup(root, target_key()));
                    },
                }
            }
        },
        Some(c) => {
            let tm = lookup(root, target_key()).unwrap();
            let tes = table_like_entries(tm).unwrap();
            let cm = lookup(tes, c).unwrap();
            let ces = table_like_entries(cm).unwrap();
            let km = lookup(ces, kind).unwrap();
            lemma_find_props(root, target_key());
            lemma_find_props(tes, c);
            lemma_find_props(ces, kind);
            let fi = find_idx(root, target_key());
            let fc = find_idx(tes, c);
            let fk = find_idx(ces, kind);
            let ces1 = set_in(ces, kind, with_entries(km, nes));
            let cm1 = with_entries(cm, ces1);
            let tes1 = set_in(tes, c, cm1);
            let tm1 = with_entries(tm, tes1);
            assert(out == set_in(root, target_key(), tm1));
            assert(forall|j: int|
                0 <= j < root.len() && j != fi ==> #[trigger] out[j] == root[j]);
            assert(out[fi].0 == target_key());
            assert forall|k2: Seq<char>| k2 != target_key() implies #[trigger] lookup(out, k2)
                == lookup(root, k2) by {
                lemma_find_keys_eq(root, out, k2);
                lemma_find_props(root, k2);
                if has_key(root, k2) {
                    assert(root[find_idx(root, k2)].0 == k2);
                    assert(find_idx(root, k2) != fi);
                }
            }
            assert(lookup(out, target_key()) == Some(tm1)) by {
                lemma_find_keys_eq(root, out, target_key());
            }
            // the conditions and the entries under each stay keyed the same
            assert(forall|j: int|
                0 <= j < tes.len() && j != fc ==> #[trigger] tes1[j] == tes[j]);
            assert(tes1[fc] == (c, cm1));
            assert(forall|j: int| 0 <= j < tes.len() ==> (#[trigger] tes1[j]).0 == tes[j].0);
            assert(cfg_list(out) == cfg_list(root)) by {
                match tm {
                    ItemModel::Tab { dotted, entries } => {
                        assert(tm1 == (ItemModel::Tab { dotted, entries: tes1 }));
                        assert(tes1.map_values(|kv: (Seq<char>, ItemModel)| kv.0) =~= tes.map_values(
                            |kv: (Seq<char>, ItemModel)| kv.0,
                        ));
                    },
                    ItemModel::VInline { entries } => {
                        assert(tm1 == (ItemModel::VInline { entries: tes1 }));
                    },
                    _ => {},
                }
            }
            assert forall|c2: Option<Seq<char>>, k2: Seq<char>|
                k2 != target_key() && (c2, k2) != (cfg, kind) implies #[trigger] located(
                out,
                c2,
                k2,
            ) == located(root, c2, k2) by {
                match c2 {
                    None => {
                        assert(lookup(out, k2) == lookup(root, k2));
                    },
                    Some(cc) => {
                        assert(table_like_entries(tm1) == Some(tes1));
                        if cc != c {
                            lemma_find_keys_eq(tes, tes1, cc);
                            lemma_find_props(tes, cc);
                            if has_key(tes, cc) {
                                assert(tes[find_idx(tes, cc)].0 == cc);
                                assert(find_idx(tes, cc) != fc);
                            }
                            assert(lookup(tes1, cc) == lookup(tes, cc));
                        } else {
                            assert(k2 != kind);
                            assert(lookup(tes1, c) == Some(cm1)) by {
                                lemma_find_keys_eq(tes, tes1, c);
                            }
                            assert(table_like_entries(cm1) == Some(ces1));
                            assert(forall|j: int|
                                0 <= j < ces.len() && j != fk ==> #[trigger] ces1[j] == ces[j]);
                            assert(forall|j: int|
                                0 <= j < ces.len() ==> (#[trigger] ces1[j]).0 == ces[j].0);
                            lemma_find_keys_eq(ces, ces1, k2);
                            lemma_find_props(ces, k2);
                            if has_key(ces, k2) {
                                assert(ces[find_idx(ces, k2)].0 == k2);
                                assert(find_idx(ces, k2) != fk);
                            }
                            assert(lookup(ces1, k2) == lookup(ces, k2));
                        }
                    },
                }
            }
        },
    }
}

/// Entry-wise conversion of an optional table's entries.
pub open spec fn conv_opt(
    o: Option<Seq<(Seq<char>, ItemModel)>>,
) -> Option<Seq<(Seq<char>, ItemModel)>> {
    match o {
        Some(t) => Some(convert_table_entries(t)),
        None => None,
    }
}

/// A place that a conversion run leaves untouched: either no dependency
/// table is there, or one that converting rewrites nothing in.
pub open spec fn settled(o: Option<Seq<(Seq<char>, ItemModel)>>) -> bool {
    match o {
        Some(t) => convert_table_entries(t) == t && !any_convertible(t),
        None => true,
    }
}

pub proof fn lemma_conv_opt_settled(o: Option<Seq<(Seq<char>, ItemModel)>>)
    ensures
        settled(conv_opt(o)),
        conv_opt(conv_opt(o)) == conv_opt(o),
{
    match o {
        Some(t) => {
            lemma_convert_table_idempotent(t);
        },
        None => {},
    }
}

proof fn lemma_contains_shift(s: Seq<Seq<char>>, x: Seq<char>)
    requires
        s.len() > 0,
    ensures
        s.contains(x) == (x == s[0] || s.drop_first().contains(x)),
{
    let d = s.drop_first();
    assert(forall|j: int| 0 <= j < d.len() ==> #[trigger] d[j] == s[j + 1]);
    if s.contains(x) {
        let w = choose|i: int| 0 <= i < s.len() && #[trigger] s[i] == x;
        if w > 0 {
            assert(d[w - 1] == x);
        }
    }
    if d.contains(x) {
        let w = choose|i: int| 0 <= i < d.len() && #[trigger] d[i] == x;
        assert(s[w + 1] == x);
    }
}

/// One locator step: the place itself now holds the converted table, and the
/// rest of the document stands as it was.
pub proof fn lemma_convert_at_effect(
    root: Seq<(Seq<char>, ItemModel)>,
    cfg: Option<Seq<char>>,
    kind: Seq<char>,
)
    requires
        kind != target_key(),
    ensures
        convert_at_spec(root, cfg, kind).0.len() == root.len(),
        forall|j: int|
            0 <= j < root.len() ==> (#[trigger] convert_at_spec(root, cfg, kind).0[j]).0
                == root[j].0,
        forall|j: int|
            0 <= j < root.len() && root[j].0 != root_touched(cfg, kind)
                ==> #[trigger] convert_at_spec(root, cfg, kind).0[j] == root[j],
        cfg_list(convert_at_spec(root, cfg, kind).0) == cfg_list(root),
        located(convert_at_spec(root, cfg, kind).0, cfg, kind) == conv_opt(
            located(root, cfg, kind),
        ),
        forall|c2: Option<Seq<char>>, k2: Seq<char>|
            k2 != target_key() && (c2, k2) != (cfg, kind) ==> #[trigger] located(
                convert_at_spec(root, cfg, kind).0,
                c2,
                k2,
            ) == located(root, c2, k2),
{
    match located(root, cfg, kind) {
        Some(tes) => {
            crate::model::lemma_set_located(root, cfg, kind, convert_table_entries(tes), tes);
            lemma_set_located_frame(root, cfg, kind, convert_table_entries(tes));
        },
        None => {},
    }
}

/// Converting one dependency kind under a list of conditions: the table of
/// that kind under each listed condition is converted once, and nothing else
/// of the document changes.
pub proof fn lemma_fold_cfgs(
    root: Seq<(Seq<char>, ItemModel)>,
    cfgs: Seq<Seq<char>>,
    kind: Seq<char>,
)
    requires
        kind != target_key(),
    ensures
        convert_kind_at_cfgs(root, cfgs, kind).0.len() == root.len(),
        forall|j: int|
            0 <= j < root.len() ==> (#[trigger] convert_kind_at_cfgs(root, cfgs, kind).0[j]).0
                == root[j].0,
        forall|j: int|
            0 <= j < root.len() && root[j].0 != target_key()
                ==> #[trigger] convert_kind_at_cfgs(root, cfgs, kind).0[j] == root[j],
        cfg_list(convert_kind_at_cfgs(root, cfgs, kind).0) == cfg_list(root),
        forall|k2: Seq<char>|
            k2 != target_key() ==> #[trigger] located(
                convert_kind_at_cfgs(root, cfgs, kind).0,
                None,
                k2,
            ) == located(root, None, k2),
        forall|c2: Seq<char>, k2: Seq<char>|
            k2 != target_key() ==> #[trigger] located(
                convert_kind_at_cfgs(root, cfgs, kind).0,
                Some(c2),
                k2,
            ) == (if k2 == kind && cfgs.contains(c2) {
                conv_opt(located(root, Some(c2), kind))
            } else {
                located(root, Some(c2), k2)
            }),
    decreases cfgs.len(),
{
    let out = convert_kind_at_cfgs(root, cfgs, kind);
    if cfgs.len() == 0 {
        assert forall|c2: Seq<char>| !cfgs.contains(c2) by {
            if cfgs.contains(c2) {
                let w = choose|i: int| 0 <= i < cfgs.len() && cfgs[i] == c2;
            }
        }
    } else {
        let c0 = cfgs[0];
        let d = cfgs.drop_first();
        let step = convert_at_spec(root, Some(c0), kind);
        let rest = convert_kind_at_cfgs(step.0, d, kind);
        lemma_convert_at_effect(root, Some(c0), kind);
        lemma_fold_cfgs(step.0, d, kind);
        assert(out.0 == rest.0);
        assert forall|c2: Seq<char>, k2: Seq<char>| k2 != target_key() implies #[trigger] located(
            out.0,
            Some(c2),
            k2,
        ) == (if k2 == kind && cfgs.contains(c2) {
            conv_opt(located(root, Some(c2), kind))
        } else {
            located(root, Some(c2), k2)
        }) by {
            lemma_contains_shift(cfgs, c2);
            if k2 != kind {
                assert((Some(c2), k2) != (Some(c0), kind));
                assert(located(step.0, Some(c2), k2) == located(root, Some(c2), k2));
                assert(located(rest.0, Some(c2), k2) == located(step.0, Some(c2), k2));
            } else if c2 == c0 {
                assert(located(step.0, Some(c2), kind) == conv_opt(located(root, Some(c2), kind)));
                if d.contains(c2) {
                    assert(located(rest.0, Some(c2), kind) == conv_opt(
                        located(step.0, Some(c2), kind),
                    ));
                    lemma_conv_opt_settled(located(root, Some(c2), kind));
                } else {
                    assert(located(rest.0, Some(c2), kind) == located(step.0, Some(c2), kind));
                }
            } else {
                assert((Some(c2), kind) != (Some(c0), kind));
                assert(located(step.0, Some(c2), kind) == located(root, Some(c2), kind));
                if d.contains(c2) {
                    assert(located(rest.0, Some(c2), kind) == conv_opt(
                        located(step.0, Some(c2), kind),
                    ));
                } else {
                    assert(located(rest.0, Some(c2), kind) == located(step.0, Some(c2), kind));
                }
            }
        }
    }
}

/// Converting a list of dependency kinds, each at the top level and under
/// each listed condition: every such table is converted once, and nothing
/// else of the document changes.
pub proof fn lemma_fold_kinds(
    root: Seq<(Seq<char>, ItemModel)>,
    cfgs: Seq<Seq<char>>,
    kinds: Seq<Seq<char>>,
)
    requires
        forall|i: int| 0 <= i < kinds.len() ==> #[trigger] kinds[i] != target_key(),
    ensures
        convert_kinds(root, cfgs, kinds).0.len() == root.len(),
        forall|j: int|
            0 <= j < root.len() ==> (#[trigger] convert_kinds(root, cfgs, kinds).0[j]).0
                == root[j].0,
        forall|j: int|
            0 <= j < root.len() && root[j].0 != target_key() && !kinds.contains(root[j].0)
                ==> #[trigger] convert_kinds(root, cfgs, kinds).0[j] == root[j],
        cfg_list(convert_kinds(root, cfgs, kinds).0) == cfg_list(root),
        forall|k2: Seq<char>|
            k2 != target_key() ==> #[trigger] located(convert_kinds(root, cfgs, kinds).0, None, k2)
                == (if kinds.contains(k2) {
                conv_opt(located(root, None, k2))
            } else {
                located(root, None, k2)
            }),
        forall|c2: Seq<char>, k2: Seq<char>|
            k2 != target_key() ==> #[trigger] located(
                convert_kinds(root, cfgs, kinds).0,
                Some(c2),
                k2,
            ) == (if kinds.contains(k2) && cfgs.contains(c2) {
                conv_opt(located(root, Some(c2), k2))
            } else {
                located(root, Some(c2), k2)
            }),
    decreases kinds.len(),
{
    let out = convert_kinds(root, cfgs, kinds);
    if kinds.len() == 0 {
        assert forall|k2: Seq<char>| !kinds.contains(k2) by {
            if kinds.contains(k2) {
                let w = choose|i: int| 0 <= i < kinds.len() && kinds[i] == k2;
            }
        }
    } else {
        let k0 = kinds[0];
        let dk = kinds.drop_first();
        assert(forall|j: int| 0 <= j < dk.len() ==> #[trigger] dk[j] == kinds[j + 1]);
        let top = convert_at_spec(root, None, k0);
        let under = convert_kind_at_cfgs(top.0, cfgs, k0);
        let rest = convert_kinds(under.0, cfgs, dk);
        assert(k0 != target_key());
        lemma_convert_at_effect(root, None, k0);
        lemma_fold_cfgs(top.0, cfgs, k0);
        lemma_fold_kinds(under.0, cfgs, dk);
        assert(out.0 == rest.0);
        // frame over root entries
        assert forall|j: int|
            0 <= j < root.len() && root[j].0 != target_key() && !kinds.contains(
                root[j].0,
            ) implies #[trigger] out.0[j] == root[j] by {
            assert(root[j].0 != k0) by {
                if root[j].0 == k0 {
                    assert(kinds[0] == root[j].0);
                    assert(kinds.contains(root[j].0));
                }
            }
            assert(top.0[j] == root[j]);
            assert(under.0[j] == top.0[j]);
            assert(!dk.contains(root[j].0)) by {
                lemma_contains_shift(kinds, root[j].0);
            }
            assert(under.0[j].0 == root[j].0);
        }
        // top-level tables
        assert forall|k2: Seq<char>| k2 != target_key() implies #[trigger] located(
            out.0,
            None,
            k2,
        ) == (if kinds.contains(k2) {
            conv_opt(located(root, None, k2))
        } else {
            located(root, None, k2)
        }) by {
            lemma_contains_shift(kinds, k2);
            if k2 == k0 {
                assert(located(top.0, None, k0) == conv_opt(located(root, None, k0)));
                assert(located(under.0, None, k0) == located(top.0, None, k0));
                if dk.contains(k0) {
                    lemma_conv_opt_settled(located(root, None, k0));
                } else {
                }
            } else {
                assert((Option::<Seq<char>>::None, k2) != (Option::<Seq<char>>::None, k0));
                assert(located(top.0, None, k2) == located(root, None, k2));
                assert(located(under.0, None, k2) == located(top.0, None, k2));
            }
        }
        // per-condition tables
        assert forall|c2: Seq<char>, k2: Seq<char>| k2 != target_key() implies #[trigger] located(
            out.0,
            Some(c2),
            k2,
        ) == (if kinds.contains(k2) && cfgs.contains(c2) {
            conv_opt(located(root, Some(c2), k2))
        } else {
            located(root, Some(c2), k2)
        }) by {
            lemma_contains_shift(kinds, k2);
            assert((Some(c2), k2) != (Option::<Seq<char>>::None, k0));
            assert(located(top.0, Some(c2), k2) == located(root, Some(c2), k2));
            if k2 == k0 {
                if cfgs.contains(c2) {
                    assert(located(under.0, Some(c2), k0) == conv_opt(
                        located(top.0, Some(c2), k0),
                    ));
                    if dk.contains(k0) {
                        lemma_conv_opt_settled(located(root, Some(c2), k0));
                    }
                } else {
                    assert(located(under.0, Some(c2), k0) == located(top.0, Some(c2), k0));
                    if dk.contains(k0) {
                    }
                }
            } else {
                assert(located(under.0, Some(c2), k2) == located(top.0, Some(c2), k2));
            }
        }
    }
}

proof fn lemma_run_identity_cfgs(
    root: Seq<(Seq<char>, ItemModel)>,
    cfgs: Seq<Seq<char>>,
    kind: Seq<char>,
)
    requires
        forall|j: int|
            0 <= j < cfgs.len() ==> settled(located(root, Some(#[trigger] cfgs[j]), kind)),
    ensures
        convert_kind_at_cfgs(root, cfgs, kind) == (root, false),
    decreases cfgs.len(),
{
    if cfgs.len() > 0 {
        let c0 = cfgs[0];
        let d = cfgs.drop_first();
        assert(forall|j: int| 0 <= j < d.len() ==> #[trigger] d[j] == cfgs[j + 1]);
        assert(settled(located(root, Some(c0), kind)));
        match located(root, Some(c0), kind) {
            Some(t) => {
                crate::model::lemma_set_located(root, Some(c0), kind, t, t);
                assert(convert_at_spec(root, Some(c0), kind) == (root, false));
            },
            None => {},
        }
        lemma_run_identity_cfgs(root, d, kind);
    }
}

proof fn lemma_run_identity(
    root: Seq<(Seq<char>, ItemModel)>,
    cfgs: Seq<Seq<char>>,
    kinds: Seq<Seq<char>>,
)
    requires
        forall|i: int| 0 <= i < kinds.len() ==> settled(located(root, None, #[trigger] kinds[i])),
        forall|i: int, j: int|
            0 <= i < kinds.len() && 0 <= j < cfgs.len() ==> settled(
                located(root, Some(#[trigger] cfgs[j]), #[trigger] kinds[i]),
            ),
    ensures
        convert_kinds(root, cfgs, kinds) == (root, false),
    decreases kinds.len(),
{
    if kinds.len() > 0 {
        let k0 = kinds[0];
        let dk = kinds.drop_first();
        assert(forall|i: int| 0 <= i < dk.len() ==> #[trigger] dk[i] == kinds[i + 1]);
        assert(settled(located(root, None, k0)));
        match located(root, None, k0) {
            Some(t) => {
                crate::model::lemma_set_located(root, None, k0, t, t);
                assert(convert_at_spec(root, None, k0) == (root, false));
            },
            None => {},
        }
        assert(forall|j: int|
            0 <= j < cfgs.len() ==> settled(located(root, Some(#[trigger] cfgs[j]), k0)));
        lemma_run_identity_cfgs(root, cfgs, k0);
        lemma_run_identity(root, cfgs, dk);
    }
}

proof fn lemma_kind_keys_facts()
    ensures
        forall|i: int|
            0 <= i < crate::model::dep_kind_keys().len()
                ==> #[trigger] crate::model::dep_kind_keys()[i] != target_key(),
        crate::model::dep_kind_keys().len() == 3,
{
    reveal_strlit("target");
    reveal_strlit("dependencies");
    reveal_strlit("dev-dependencies");
    reveal_strlit("build-dependencies");
    let kinds = crate::model::dep_kind_keys();
    assert(target_key().len() == 6);
    assert(kinds[0].len() == 12);
    assert(kinds[1].len() == 16);
    assert(kinds[2].len() == 18);
    assert forall|i: int| 0 <= i < kinds.len() implies #[trigger] kinds[i] != target_key() by {
        if i == 0 {
        } else if i == 1 {
        } else {
            assert(kinds[2] != target_key());
        }
    }
}

/// Idempotence: a second conversion run on a converted document changes
/// nothing and reports that nothing was rewritten.
pub proof fn lemma_convert_idempotent(root: Seq<(Seq<char>, ItemModel)>)
    ensures
        crate::model::convert_doc_spec(crate::model::convert_doc_spec(root).0).0
            == crate::model::convert_doc_spec(root).0,
        !crate::model::convert_doc_spec(crate::model::convert_doc_spec(root).0).1,
{
    lemma_kind_keys_facts();
    let kinds = crate::model::dep_kind_keys();
    let cfgs = cfg_list(root);
    let r1 = convert_kinds(root, cfgs, kinds).0;
    lemma_fold_kinds(root, cfgs, kinds);
    assert(cfg_list(r1) == cfgs);
    assert forall|i: int| 0 <= i < kinds.len() implies settled(
        located(r1, None, #[trigger] kinds[i]),
    ) by {
        assert(kinds.contains(kinds[i]));
        assert(located(r1, None, kinds[i]) == conv_opt(located(root, None, kinds[i])));
        lemma_conv_opt_settled(located(root, None, kinds[i]));
    }
    assert forall|i: int, j: int| 0 <= i < kinds.len() && 0 <= j < cfgs.len() implies settled(
        located(r1, Some(#[trigger] cfgs[j]), #[trigger] kinds[i]),
    ) by {
        assert(kinds.contains(kinds[i]));
        assert(cfgs.contains(cfgs[j]));
        assert(located(r1, Some(cfgs[j]), kinds[i]) == conv_opt(
            located(root, Some(cfgs[j]), kinds[i]),
        ));
        lemma_conv_opt_settled(located(root, Some(cfgs[j]), kinds[i]));
    }
    lemma_run_identity(r1, cfgs, kinds);
}

/// Non-interference: a root entry that is neither a dependency kind nor the
/// target section comes out of the whole run exactly as it went in.
pub proof fn lemma_non_interference(root: Seq<(Seq<char>, ItemModel)>, j: int)
    requires
        0 <= j < root.len(),
        root[j].0 != target_key(),
        !crate::model::dep_kind_keys().contains(root[j].0),
    ensures
        crate::model::convert_doc_spec(root).0.len() == root.len(),
        crate::model::convert_doc_spec(root).0[j] == root[j],
{
    lemma_kind_keys_facts();
    lemma_fold_kinds(root, cfg_list(root), crate::model::dep_kind_keys());
}

/// Target coverage: the dependency table of a kind under a declared
/// build-target condition is converted by the whole run exactly as a
/// top-level table of that kind is.
pub proof fn lemma_target_coverage(root: Seq<(Seq<char>, ItemModel)>, c: Seq<char>, kind: Seq<char>)
    requires
        crate::model::dep_kind_keys().contains(kind),
        cfg_list(root).contains(c),
    ensures
        located(crate::model::convert_doc_spec(root).0, Some(c), kind) == conv_opt(
            located(root, Some(c), kind),
        ),
        located(crate::model::convert_doc_spec(root).0, None, kind) == conv_opt(
            located(root, None, kind),
        ),
{
    lemma_kind_keys_facts();
    let kinds = crate::model::dep_kind_keys();
    let w = choose|i: int| 0 <= i < kinds.len() && kinds[i] == kind;
    assert(kind != target_key());
    lemma_fold_kinds(root, cfg_list(root), kinds);
}

/// A manifest with no dependency tables at all converts to itself and
/// reports that nothing was rewritten.
pub proof fn lemma_no_dependency_tables(root: Seq<(Seq<char>, ItemModel)>)
    requires
        crate::model::no_dep_tables(root),
    ensures
        crate::model::convert_doc_spec(root) == (root, false),
{
    lemma_kind_keys_facts();
    lemma_run_identity(root, cfg_list(root), crate::model::dep_kind_keys());
}

} // verus!
