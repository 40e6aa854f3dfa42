//! Mathematical model of a manifest document.
//!
//! A document is modelled by the sequence of its root table's entries, each a
//! key paired with an item model.  The model keeps exactly what the converter
//! reads or changes: string values, inline tables, full tables with their
//! dotted flag, and everything else as an opaque value.  Formatting (comments,
//! whitespace, the implicit flag of a table) is outside the model.

use vstd::prelude::*;

verus! {

/// Model of one item of a manifest document.
pub enum ItemModel {
    /// A string value.
    VStr { s: Seq<char> },
    /// An inline table: ordered key/value pairs written on one line.
    VInline { entries: Seq<(Seq<char>, ItemModel)> },
    /// A full table: ordered key/value pairs, with the flag that marks a
    /// wrapper for dotted keys.
    Tab { dotted: bool, entries: Seq<(Seq<char>, ItemModel)> },
    /// Any other value shape, identified only by an abstract identity.
    Opaque { id: int },
}

/// Strict lexicographic order on key strings, by code point, which agrees
/// with the byte order of their UTF-8 encodings.
pub open spec fn lex_lt(a: Seq<char>, b: Seq<char>) -> bool
    decreases a.len(),
{
    if b.len() == 0 {
        false
    } else if a.len() == 0 {
        true
    } else if a[0] != b[0] {
        (a[0] as int) < (b[0] as int)
    } else {
        lex_lt(a.drop_first(), b.drop_first())
    }
}

/// Entries in ascending key order (equal keys in either order).
pub open spec fn entries_sorted(s: Seq<(Seq<char>, ItemModel)>) -> bool {
    forall|i: int, j: int| 0 <= i < j < s.len() ==> !lex_lt(#[trigger] s[j].0, #[trigger] s[i].0)
}

/// Inserts an entry into a sequence, before the first entry whose key is not
/// below the new one.
pub open spec fn insert_entry(
    e: (Seq<char>, ItemModel),
    s: Seq<(Seq<char>, ItemModel)>,
) -> Seq<(Seq<char>, ItemModel)>
    decreases s.len(),
{
    if s.len() == 0 {
        seq![e]
    } else if !lex_lt(s[0].0, e.0) {
        seq![e] + s
    } else {
        seq![s[0]] + insert_entry(e, s.drop_first())
    }
}

/// Stable insertion sort of entries by key.
pub open spec fn sort_entries(s: Seq<(Seq<char>, ItemModel)>) -> Seq<(Seq<char>, ItemModel)>
    decreases s.len(),
{
    if s.len() == 0 {
        s
    } else {
        insert_entry(s[0], sort_entries(s.drop_first()))
    }
}

/// The effect of sorting on one value: a table that wraps dotted keys is
/// sorted in turn, any other value is left as it is.
pub open spec fn sort_item(m: ItemModel) -> ItemModel
    decreases m, 2int, 0int,
{
    match m {
        ItemModel::Tab { dotted, entries } => if dotted {
            ItemModel::Tab { dotted, entries: sort_table_entries(entries) }
        } else {
            m
        },
        _ => m,
    }
}

/// Applies `sort_item` to the value of every entry from position `i` on.
pub open spec fn sort_vals_from(
    s: Seq<(Seq<char>, ItemModel)>,
    i: int,
) -> Seq<(Seq<char>, ItemModel)>
    decreases s, 0int, s.len() - i,
{
    if i < 0 || i >= s.len() {
        s
    } else {
        sort_vals_from(s, i + 1).update(i, (s[i].0, sort_item(s[i].1)))
    }
}

/// What sorting a table does to its entries: reorder them by key, and sort
/// the contents of every value that wraps dotted keys.
pub open spec fn sort_table_entries(
    s: Seq<(Seq<char>, ItemModel)>,
) -> Seq<(Seq<char>, ItemModel)>
    decreases s, 1int, 0int,
{
    sort_entries(sort_vals_from(s, 0))
}

/// Whether a key occurs among the entries.
pub open spec fn has_key(s: Seq<(Seq<char>, ItemModel)>, k: Seq<char>) -> bool {
    exists|i: int| 0 <= i < s.len() && (#[trigger] s[i]).0 == k
}

/// Position of the first entry with the given key, or `s.len()` if none.
pub open spec fn find_idx(s: Seq<(Seq<char>, ItemModel)>, k: Seq<char>) -> int
    decreases s.len(),
{
    if s.len() == 0 {
        0
    } else if s[0].0 == k {
        0
    } else {
        1 + find_idx(s.drop_first(), k)
    }
}

/// The value stored under a key, if any (the first occurrence decides).
pub open spec fn lookup(s: Seq<(Seq<char>, ItemModel)>, k: Seq<char>) -> Option<ItemModel> {
    if has_key(s, k) {
        Some(s[find_idx(s, k)].1)
    } else {
        None
    }
}

/// Replaces the value under a key in place, keeping the entry's position.
pub open spec fn set_in(
    s: Seq<(Seq<char>, ItemModel)>,
    k: Seq<char>,
    m: ItemModel,
) -> Seq<(Seq<char>, ItemModel)> {
    s.update(find_idx(s, k), (k, m))
}

/// The entries of a table-like value: a full table or an inline table.
pub open spec fn table_like_entries(m: ItemModel) -> Option<Seq<(Seq<char>, ItemModel)>> {
    match m {
        ItemModel::Tab { dotted, entries } => Some(entries),
        ItemModel::VInline { entries } => Some(entries),
        _ => None,
    }
}

/// Replaces the entries of a table-like value, keeping its other data.
pub open spec fn with_entries(m: ItemModel, es: Seq<(Seq<char>, ItemModel)>) -> ItemModel {
    match m {
        ItemModel::Tab { dotted, entries } => ItemModel::Tab { dotted, entries: es },
        ItemModel::VInline { entries } => ItemModel::VInline { entries: es },
        _ => m,
    }
}

/// Looks a key up below a table-like value.
pub open spec fn step_into(m: Option<ItemModel>, k: Seq<char>) -> Option<ItemModel> {
    match m {
        Some(mm) => match table_like_entries(mm) {
            Some(es) => lookup(es, k),
            None => None,
        },
        None => None,
    }
}

/// The key of the root section that scopes dependencies by build target.
pub open spec fn target_key() -> Seq<char> {
    "target"@
}

/// The key that a bare version string is stored under after conversion.
pub open spec fn version_key() -> Seq<char> {
    "version"@
}

/// The three dependency kinds, in the order they are processed.
pub open spec fn dep_kind_keys() -> Seq<Seq<char>> {
    seq!["dependencies"@, "dev-dependencies"@, "build-dependencies"@]
}

/// An optional build-target condition scoping a dependency table.
pub open spec fn opt_view(c: Option<&str>) -> Option<Seq<char>> {
    match c {
        Some(s) => Some(s@),
        None => None,
    }
}

/// The item that the locator's walk reaches for a dependency kind, optionally
/// under a build-target condition.
pub open spec fn reached(
    root: Seq<(Seq<char>, ItemModel)>,
    cfg: Option<Seq<char>>,
    kind: Seq<char>,
) -> Option<ItemModel> {
    match cfg {
        Some(c) => step_into(step_into(lookup(root, target_key()), c), kind),
        None => lookup(root, kind),
    }
}

/// The entries of the dependency table at the given place, when the walk
/// reaches a full table there.
pub open spec fn located(
    root: Seq<(Seq<char>, ItemModel)>,
    cfg: Option<Seq<char>>,
    kind: Seq<char>,
) -> Option<Seq<(Seq<char>, ItemModel)>> {
    match reached(root, cfg, kind) {
        Some(ItemModel::Tab { dotted, entries }) => Some(entries),
        _ => None,
    }
}

/// The root entries after the dependency table at the given place had its
/// entries replaced by `nes`; the root is unchanged if no table is there.
pub open spec fn set_located(
    root: Seq<(Seq<char>, ItemModel)>,
    cfg: Option<Seq<char>>,
    kind: Seq<char>,
    nes: Seq<(Seq<char>, ItemModel)>,
) -> Seq<(Seq<char>, ItemModel)> {
    if located(root, cfg, kind) is Some {
        match cfg {
            None => set_in(root, kind, with_entries(lookup(root, kind).unwrap(), nes)),
            Some(c) => {
                let tm = lookup(root, target_key()).unwrap();
                let tes = table_like_entries(tm).unwrap();
                let cm = lookup(tes, c).unwrap();
                let ces = table_like_entries(cm).unwrap();
                let km = lookup(ces, kind).unwrap();
                let new_cm = with_entries(cm, set_in(ces, kind, with_entries(km, nes)));
                set_in(root, target_key(), with_entries(tm, set_in(tes, c, new_cm)))
            },
        }
    } else {
        root
    }
}

/// The build-target conditions declared at the root, in source order; empty
/// unless the target section is a full table.
pub open spec fn cfg_list(root: Seq<(Seq<char>, ItemModel)>) -> Seq<Seq<char>> {
    match lookup(root, target_key()) {
        Some(ItemModel::Tab { dotted, entries }) => entries.map_values(
            |kv: (Seq<char>, ItemModel)| kv.0,
        ),
        _ => Seq::empty(),
    }
}

/// Whether an entry's value qualifies for conversion.
pub open spec fn convertible(m: ItemModel) -> bool {
    m is VStr || m is VInline
}

/// What conversion makes of one entry's value: a bare string becomes a table
/// holding it under the version key, an inline table becomes a full table
/// with the same entries, anything else is untouched.
pub open spec fn convert_value(m: ItemModel) -> ItemModel {
    match m {
        ItemModel::VStr { s } => ItemModel::Tab {
            dotted: false,
            entries: seq![(version_key(), ItemModel::VStr { s })],
        },
        ItemModel::VInline { entries } => ItemModel::Tab { dotted: false, entries },
        _ => m,
    }
}

/// Entry-wise conversion of a dependency table's entries.
pub open spec fn convert_entries(
    es: Seq<(Seq<char>, ItemModel)>,
) -> Seq<(Seq<char>, ItemModel)> {
    es.map_values(|kv: (Seq<char>, ItemModel)| (kv.0, convert_value(kv.1)))
}

/// Whether converting a table with these entries rewrites anything.
pub open spec fn any_convertible(es: Seq<(Seq<char>, ItemModel)>) -> bool {
    exists|i: int| 0 <= i < es.len() && convertible((#[trigger] es[i]).1)
}

/// The full effect of converting one dependency table: rewrite every
/// qualifying entry, then reorder the entries by key.
pub open spec fn convert_table_entries(
    es: Seq<(Seq<char>, ItemModel)>,
) -> Seq<(Seq<char>, ItemModel)> {
    sort_table_entries(convert_entries(es))
}

/// One locator step of the whole run: the root after converting the
/// dependency table at the given place, and whether that rewrote anything.
pub open spec fn convert_at_spec(
    root: Seq<(Seq<char>, ItemModel)>,
    cfg: Option<Seq<char>>,
    kind: Seq<char>,
) -> (Seq<(Seq<char>, ItemModel)>, bool) {
    match located(root, cfg, kind) {
        Some(tes) => (set_located(root, cfg, kind, convert_table_entries(tes)), any_convertible(tes)),
        None => (root, false),
    }
}

/// Converts one dependency kind under each build-target condition in turn.
pub open spec fn convert_kind_at_cfgs(
    root: Seq<(Seq<char>, ItemModel)>,
    cfgs: Seq<Seq<char>>,
    kind: Seq<char>,
) -> (Seq<(Seq<char>, ItemModel)>, bool)
    decreases cfgs.len(),
{
    if cfgs.len() == 0 {
        (root, false)
    } else {
        let first = convert_at_spec(root, Some(cfgs[0]), kind);
        let rest = convert_kind_at_cfgs(first.0, cfgs.drop_first(), kind);
        (rest.0, first.1 || rest.1)
    }
}

/// Converts each dependency kind at the top level and under every
/// build-target condition.
pub open spec fn convert_kinds(
    root: Seq<(Seq<char>, ItemModel)>,
    cfgs: Seq<Seq<char>>,
    kinds: Seq<Seq<char>>,
) -> (Seq<(Seq<char>, ItemModel)>, bool)
    decreases kinds.len(),
{
    if kinds.len() == 0 {
        (root, false)
    } else {
        let top = convert_at_spec(root, None, kinds[0]);
        let under = convert_kind_at_cfgs(top.0, cfgs, kinds[0]);
        let rest = convert_kinds(under.0, cfgs, kinds.drop_first());
        (rest.0, top.1 || under.1 || rest.1)
    }
}

/// The whole conversion run over a document's root entries: the new root
/// entries, and whether any dependency entry was rewritten.
pub open spec fn convert_doc_spec(
    root: Seq<(Seq<char>, ItemModel)>,
) -> (Seq<(Seq<char>, ItemModel)>, bool) {
    convert_kinds(root, cfg_list(root), dep_kind_keys())
}

/// No dependency table anywhere in the document: the locator's walk reaches
/// no full table for any kind, at the top level or under any declared
/// build-target condition.
pub open spec fn no_dep_tables(root: Seq<(Seq<char>, ItemModel)>) -> bool {
    &&& forall|i: int|
        0 <= i < dep_kind_keys().len() ==> located(
            root,
            None,
            #[trigger] dep_kind_keys()[i],
        ) is None
    &&& forall|i: int, j: int|
        0 <= i < dep_kind_keys().len() && 0 <= j < cfg_list(root).len() ==> located(
            root,
            Some(#[trigger] cfg_list(root)[j]),
            #[trigger] dep_kind_keys()[i],
        ) is None
}

/// Pairwise distinct keys.
pub open spec fn distinct_keys(s: Seq<(Seq<char>, ItemModel)>) -> bool {
    forall|i: int, j: int| 0 <= i < j < s.len() ==> (#[trigger] s[i]).0 != (#[trigger] s[j]).0
}

pub proof fn lemma_find_props(s: Seq<(Seq<char>, ItemModel)>, k: Seq<char>)
    ensures
        has_key(s, k) ==> 0 <= find_idx(s, k) < s.len() && s[find_idx(s, k)].0 == k,
        !has_key(s, k) ==> find_idx(s, k) == s.len(),
    decreases s.len(),
{
    if s.len() == 0 {
    } else if s[0].0 == k {
    } else {
        let d = s.drop_first();
        lemma_find_props(d, k);
        assert(forall|j: int| 0 <= j < d.len() ==> #[trigger] d[j] == s[j + 1]);
        if has_key(s, k) {
            let w = choose|i: int| 0 <= i < s.len() && (#[trigger] s[i]).0 == k;
            assert(d[w - 1].0 == k);
            assert(has_key(d, k));
        }
        if has_key(d, k) {
            let w = choose|i: int| 0 <= i < d.len() && (#[trigger] d[i]).0 == k;
            assert(s[w + 1].0 == k);
            assert(has_key(s, k));
        }
    }
}

pub proof fn lemma_find_at(s: Seq<(Seq<char>, ItemModel)>, k: Seq<char>, i: int)
    requires
        distinct_keys(s),
        0 <= i < s.len(),
        s[i].0 == k,
    ensures
        has_key(s, k),
        find_idx(s, k) == i,
    decreases s.len(),
{
    assert(has_key(s, k));
    if s[0].0 == k {
        assert(i == 0) by {
            if i != 0 {
                assert(s[0].0 != s[i].0);
            }
        }
    } else {
        let d = s.drop_first();
        assert(forall|j: int| 0 <= j < d.len() ==> #[trigger] d[j] == s[j + 1]);
        assert(distinct_keys(d));
        lemma_find_at(d, k, i - 1);
    }
}

/// `find_idx` and `has_key` depend only on the keys.
pub proof fn lemma_find_keys_eq(
    s1: Seq<(Seq<char>, ItemModel)>,
    s2: Seq<(Seq<char>, ItemModel)>,
    k: Seq<char>,
)
    requires
        s1.len() == s2.len(),
        forall|i: int| 0 <= i < s1.len() ==> (#[trigger] s1[i]).0 == (#[trigger] s2[i]).0,
    ensures
        has_key(s1, k) == has_key(s2, k),
        find_idx(s1, k) == find_idx(s2, k),
    decreases s1.len(),
{
    if has_key(s1, k) {
        let w = choose|i: int| 0 <= i < s1.len() && (#[trigger] s1[i]).0 == k;
        assert(s2[w].0 == k);
    }
    if has_key(s2, k) {
        let w = choose|i: int| 0 <= i < s2.len() && (#[trigger] s2[i]).0 == k;
        assert(s1[w].0 == k);
    }
    if s1.len() == 0 {
    } else if s1[0].0 == k {
    } else {
        let d1 = s1.drop_first();
        let d2 = s2.drop_first();
        assert(forall|j: int| 0 <= j < d1.len() ==> #[trigger] d1[j] == s1[j + 1]);
        assert(forall|j: int| 0 <= j < d2.len() ==> #[trigger] d2[j] == s2[j + 1]);
        lemma_find_keys_eq(d1, d2, k);
    }
}

/// Replacing a table's entries leaves a table-like value table-like, with the
/// new entries, and collapses repeated replacement.
pub proof fn lemma_with_entries(m: ItemModel, a: Seq<(Seq<char>, ItemModel)>, b: Seq<(Seq<char>, ItemModel)>)
    requires
        table_like_entries(m) is Some,
    ensures
        table_like_entries(with_entries(m, a)) == Some(a),
        with_entries(with_entries(m, a), b) == with_entries(m, b),
        m is Tab ==> with_entries(m, a) is Tab,
{
}

/// After replacing the dependency table at a place, that place holds exactly
/// the new entries, and replacing again from there is replacing once.
pub proof fn lemma_set_located(
    root: Seq<(Seq<char>, ItemModel)>,
    cfg: Option<Seq<char>>,
    kind: Seq<char>,
    x: Seq<(Seq<char>, ItemModel)>,
    y: Seq<(Seq<char>, ItemModel)>,
)
    requires
        located(root, cfg, kind) is Some,
    ensures
        located(set_located(root, cfg, kind, x), cfg, kind) == Some(x),
        set_located(set_located(root, cfg, kind, x), cfg, kind, y) == set_located(
            root,
            cfg,
            kind,
            y,
        ),
        set_located(root, cfg, kind, located(root, cfg, kind).unwrap()) == root,
{
    match cfg {
        None => {
            let km = lookup(root, kind).unwrap();
            lemma_find_props(root, kind);
            let fi = find_idx(root, kind);
            let root1 = set_in(root, kind, with_entries(km, x));
            assert(root1.len() == root.len());
            assert(forall|i: int| 0 <= i < root.len() ==> (#[trigger] root1[i]).0 == (
            #[trigger] root[i]).0);
            lemma_find_keys_eq(root, root1, kind);
            assert(lookup(root1, kind) == Some(with_entries(km, x)));
            lemma_with_entries(km, x, y);
            assert(set_in(root1, kind, with_entries(with_entries(km, x), y)) =~= set_in(
                root,
                kind,
                with_entries(km, y),
            ));
            assert(set_in(root, kind, with_entries(km, located(root, cfg, kind).unwrap())) =~= root);
        },
        Some(c) => {
            let tm = lookup(root, target_key()).unwrap();
            let tes = table_like_entries(tm).unwrap();
            let cm = lookup(tes, c).unwrap();
            let ces = table_like_entries(cm).unwrap();
            let km = lookup(ces, kind).unwrap();
            lemma_find_props(root, target_key());
            lemma_find_props(tes, c);
            lemma_find_props(ces, kind);

            let ces1 = set_in(ces, kind, with_entries(km, x));
            let cm1 = with_entries(cm, ces1);
            let tes1 = set_in(tes, c, cm1);
            let tm1 = with_entries(tm, tes1);
            let root1 = set_in(root, target_key(), tm1);

            assert(forall|i: int| 0 <= i < root.len() ==> (#[trigger] root1[i]).0 == (
            #[trigger] root[i]).0);
            lemma_find_keys_eq(root, root1, target_key());
            assert(lookup(root1, target_key()) == Some(tm1));
            lemma_with_entries(tm, tes1, set_in(tes, c, with_entries(cm, set_in(ces, kind, with_entries(km, y)))));
            assert(forall|i: int| 0 <= i < tes.len() ==> (#[trigger] tes1[i]).0 == (
            #[trigger] tes[i]).0);
            lemma_find_keys_eq(tes, tes1, c);
            assert(lookup(tes1, c) == Some(cm1));
            lemma_with_entries(cm, ces1, set_in(ces, kind, with_entries(km, y)));
            assert(forall|i: int| 0 <= i < ces.len() ==> (#[trigger] ces1[i]).0 == (
            #[trigger] ces[i]).0);
            lemma_find_keys_eq(ces, ces1, kind);
            assert(lookup(ces1, kind) == Some(with_entries(km, x)));
            lemma_with_entries(km, x, y);
            assert(located(root1, cfg, kind) == Some(x));

            // collapsing the second replacement
            let ces2a = set_in(ces1, kind, with_entries(with_entries(km, x), y));
            let ces2b = set_in(ces, kind, with_entries(km, y));
            assert(ces2a =~= ces2b);
            let tes2a = set_in(tes1, c, with_entries(cm1, ces2b));
            let tes2b = set_in(tes, c, with_entries(cm, ces2b));
            assert(with_entries(cm1, ces2b) == with_entries(cm, ces2b));
            assert(tes2a =~= tes2b);
            assert(with_entries(tm1, tes2b) == with_entries(tm, tes2b));
            assert(set_in(root1, target_key(), with_entries(tm, tes2b)) =~= set_in(
                root,
                target_key(),
                with_entries(tm, tes2b),
            ));

            // replacing with the present entries changes nothing
            let ces0 = set_in(ces, kind, with_entries(km, located(root, cfg, kind).unwrap()));
            assert(ces0 =~= ces);
            assert(with_entries(cm, ces) == cm) by {
                match cm {
                    ItemModel::Tab { dotted, entries } => {},
                    ItemModel::VInline { entries } => {},
                    _ => {},
                }
            }
            assert(set_in(tes, c, cm) =~= tes);
            assert(with_entries(tm, tes) == tm) by {
                match tm {
                    ItemModel::Tab { dotted, entries } => {},
                    ItemModel::VInline { entries } => {},
                    _ => {},
                }
            }
            assert(set_in(root, target_key(), tm) =~= root);
        },
    }
}

} // verus!
