//! A manifest under conversion: parse, convert every dependency table, and
//! serialize.

use vstd::prelude::*;

use crate::doc::dep_entry_get;
use crate::doc::dep_table_keys;
use crate::doc::dep_table_set_implicit;
use crate::doc::dep_table_sort;
use crate::doc::dep_table_swap;
use crate::doc::doc_entries;
use crate::doc::doc_tidy;
use crate::doc::inline_item_into_table_item;
use crate::doc::item_is_inline_table;
use crate::doc::item_model;
use crate::doc::item_version_string;
use crate::doc::parse_document;
use crate::doc::render_document;
use crate::doc::target_cfgs;
use crate::doc::version_table_item;
use crate::model::ItemModel;
use crate::model::any_convertible;
use crate::model::cfg_list;
use crate::model::convert_at_spec;
use crate::model::convert_doc_spec;
use crate::model::convert_entries;
use crate::model::convert_kind_at_cfgs;
use crate::model::convert_kinds;
use crate::model::convert_table_entries;
use crate::model::convert_value;
use crate::model::convertible;
use crate::model::dep_kind_keys;
use crate::model::distinct_keys;
use crate::model::has_key;
use crate::model::lemma_find_at;
use crate::model::lemma_set_located;
use crate::model::located;
use crate::model::lookup;
use crate::model::opt_view;
use crate::model::set_in;
use crate::model::set_located;

verus! {

/// The input text was not a well-formed manifest.
#[derive(Debug)]
pub struct ParseError {
    /// The manifest that failed to parse.
    pub path: String,
    /// What the parser reported.
    pub message: String,
}

/// A manifest document owned by one conversion run.
#[derive(Debug)]
pub struct Manifest {
    /// True iff some dependency entry was rewritten.
    pub converted: bool,
    /// The parsed document.
    pub document: toml_edit::Document,
    /// Where the manifest came from.
    pub path: String,
}

impl Manifest {
    /// The document has no hidden slots; established by `build` and kept by
    /// `convert`.
    pub open spec fn wf(self) -> bool {
        doc_tidy(self.document)
    }

    /// Parses manifest text.  Succeeds exactly on well-formed text, with the
    /// manifest holding the parse of that text, not yet converted; fails
    /// otherwise, with an error naming the manifest.
    pub fn build(path: &str, text: &str) -> (r: Result<Manifest, ParseError>)
        ensures
            (r is Ok) == crate::doc::parses_ok(text@),
            r matches Ok(m) ==> {
                &&& m.wf()
                &&& !m.converted
                &&& m.path@ == path@
                &&& doc_entries(m.document) == crate::doc::parsed_of(text@)
            },
            r matches Err(e) ==> e.path@ == path@,
    {
        match parse_document(text) {
            Ok(document) => Ok(Manifest { converted: false, document, path: path.to_string() }),
            Err(message) => Err(ParseError { path: path.to_string(), message }),
        }
    }

    /// Converts every dependency table of the manifest: each top-level
    /// dependency kind, and each kind under every build-target condition.
    /// The `converted` flag becomes true iff it was already true or some
    /// entry was rewritten in this run.
    pub fn convert(&mut self)
        requires
            old(self).wf(),
        ensures
            final(self).wf(),
            final(self).path == old(self).path,
            doc_entries(final(self).document) == convert_doc_spec(
                doc_entries(old(self).document),
            ).0,
            final(self).converted == (old(self).converted || convert_doc_spec(
                doc_entries(old(self).document),
            ).1),
            crate::model::no_dep_tables(doc_entries(old(self).document)) ==> final(self).document
                == old(self).document,
    {
        let c = convert_document(&mut self.document);
        self.converted = self.converted || c;
    }

    /// The manifest serialized back to text, with the source formatting of
    /// every node the conversion did not touch.
    pub fn to_text(&self) -> (r: String)
        ensures
            r@ == crate::doc::rendered(self.document),
    {
        render_document(&self.document)
    }
}

/// Runs the whole conversion over a parsed document and reports whether any
/// dependency entry was rewritten.
fn convert_document(doc: &mut toml_edit::Document) -> (c: bool)
    requires
        doc_tidy(*old(doc)),
    ensures
        doc_tidy(*final(doc)),
        doc_entries(*final(doc)) == convert_doc_spec(doc_entries(*old(doc))).0,
        c == convert_doc_spec(doc_entries(*old(doc))).1,
        crate::model::no_dep_tables(doc_entries(*old(doc))) ==> *final(doc) == *old(doc),
{
    let ghost root0 = doc_entries(*doc);
    let ghost d0 = *doc;
    let cfgs = target_cfgs(doc);
    let ghost cfgv = cfgs@.map_values(|s: String| s@);

    let c0 = convert_kind(doc, &cfgs, "dependencies");
    let ghost r1 = doc_entries(*doc);
    let ghost d1 = *doc;
    let c1 = convert_kind(doc, &cfgs, "dev-dependencies");
    let ghost r2 = doc_entries(*doc);
    let ghost d2 = *doc;
    let c2 = convert_kind(doc, &cfgs, "build-dependencies");

    proof {
        reveal_with_fuel(convert_kinds, 5);
        let kinds = dep_kind_keys();
        let k1 = kinds.drop_first();
        let k2 = k1.drop_first();
        let k3 = k2.drop_first();
        assert(kinds[0] == "dependencies"@);
        assert(k1 =~= seq!["dev-dependencies"@, "build-dependencies"@]);
        assert(k1[0] == "dev-dependencies"@);
        assert(kinds[1] == "dev-dependencies"@);
        assert(k2 =~= seq!["build-dependencies"@]);
        assert(k2[0] == "build-dependencies"@);
        assert(kinds[2] == "build-dependencies"@);
        assert(k3 =~= Seq::<Seq<char>>::empty());
        assert(convert_kinds(doc_entries(*doc), cfgv, k3) == (doc_entries(*doc), false));
        assert(convert_kinds(r2, cfgv, k2) == (doc_entries(*doc), c2));
        assert(convert_kinds(r1, cfgv, k1) == (doc_entries(*doc), c1 || c2));
        assert(convert_kinds(root0, cfgv, kinds) == (doc_entries(*doc), c0 || (c1 || c2)));
        assert(cfg_list(root0) == cfgv);
        if crate::model::no_dep_tables(root0) {
            assert forall|j: int| 0 <= j < cfgs@.len() implies located(
                root0,
                Some((#[trigger] cfgs@[j])@),
                kinds[0],
            ) is None && located(root0, Some(cfgs@[j]@), kinds[1]) is None && located(
                root0,
                Some(cfgs@[j]@),
                kinds[2],
            ) is None by {
                assert(cfgv[j] == cfgs@[j]@);
                assert(cfg_list(root0)[j] == cfgs@[j]@);
            }
            assert(located(root0, None, kinds[0]) is None);
            assert(d1 == d0);
            assert(doc_entries(d1) == root0);
            assert(located(root0, None, kinds[1]) is None);
            assert(d2 == d1);
            assert(doc_entries(d2) == root0);
            assert(located(root0, None, kinds[2]) is None);
            assert(*doc == d2);
        }
    }
    c0 || c1 || c2
}

/// Converts one dependency kind: the top-level table of that kind, then the
/// table of that kind under each given build-target condition in turn.
fn convert_kind(doc: &mut toml_edit::Document, cfgs: &Vec<String>, kind: &str) -> (c: bool)
    requires
        doc_tidy(*old(doc)),
    ensures
        doc_tidy(*final(doc)),
        ({
            let top = convert_at_spec(doc_entries(*old(doc)), None, kind@);
            let under = convert_kind_at_cfgs(top.0, cfgs@.map_values(|s: String| s@), kind@);
            doc_entries(*final(doc)) == under.0 && c == (top.1 || under.1)
        }),
        (located(doc_entries(*old(doc)), None, kind@) is None && (forall|j: int|
            0 <= j < cfgs@.len() ==> located(
                doc_entries(*old(doc)),
                Some((#[trigger] cfgs@[j])@),
                kind@,
            ) is None)) ==> *final(doc) == *old(doc),
{
    let ghost cfgv = cfgs@.map_values(|s: String| s@);
    let c_top = convert_at(doc, None, kind);
    let ghost root_top = doc_entries(*doc);
    let ghost full = convert_kind_at_cfgs(root_top, cfgv, kind@);

    let mut c = c_top;
    let mut i: usize = 0;
    proof {
        assert(cfgv.skip(0) =~= cfgv);
    }
    while i < cfgs.len()
        invariant
            doc_tidy(*doc),
            i <= cfgs.len(),
            cfgv == cfgs@.map_values(|s: String| s@),
            full == convert_kind_at_cfgs(root_top, cfgv, kind@),
            ({
                let rem = convert_kind_at_cfgs(doc_entries(*doc), cfgv.skip(i as int), kind@);
                rem.0 == full.0 && (c_top || full.1) == (c || rem.1)
            }),
            (located(doc_entries(*old(doc)), None, kind@) is None && (forall|j: int|
                0 <= j < cfgs@.len() ==> located(
                    doc_entries(*old(doc)),
                    Some((#[trigger] cfgs@[j])@),
                    kind@,
                ) is None)) ==> *doc == *old(doc),
        decreases cfgs.len() - i,
    {
        let ghost cur = doc_entries(*doc);
        let ghost remv = cfgv.skip(i as int);
        let ci = convert_at(doc, Some(cfgs[i].as_str()), kind);
        proof {
            assert(remv[0] == cfgv[i as int]);
            assert(remv.drop_first() =~= cfgv.skip(i as int + 1));
        }
        c = c || ci;
        i = i + 1;
    }
    proof {
        assert(cfgv.skip(cfgs@.len() as int) =~= Seq::<Seq<char>>::empty());
    }
    c
}

/// Converts the dependency table at one place: rewrites every qualifying
/// entry, then reorders the table by key and lets it keep the document's
/// section layout.  Reports whether anything was rewritten; a place the
/// locator's walk does not reach is skipped and reports nothing.
fn convert_at(doc: &mut toml_edit::Document, cfg: Option<&str>, kind: &str) -> (c: bool)
    requires
        doc_tidy(*old(doc)),
    ensures
        doc_tidy(*final(doc)),
        doc_entries(*final(doc)) == convert_at_spec(
            doc_entries(*old(doc)),
            opt_view(cfg),
            kind@,
        ).0,
        c == convert_at_spec(doc_entries(*old(doc)), opt_view(cfg), kind@).1,
        located(doc_entries(*old(doc)), opt_view(cfg), kind@) is None ==> *final(doc) == *old(
            doc,
        ),
{
    let ghost root0 = doc_entries(*doc);
    let ghost p_cfg = opt_view(cfg);
    let keys_opt = dep_table_keys(doc, cfg, kind);
    match keys_opt {
        None => false,
        Some(keys) => {
            let ghost tes0 = located(root0, p_cfg, kind@).unwrap();
            proof {
                assert(located(root0, p_cfg, kind@) is Some);
                lemma_set_located(root0, p_cfg, kind@, tes0, tes0);
                assert(keys@.map_values(|s: String| s@) == tes0.map_values(
                    |kv: (Seq<char>, ItemModel)| kv.0,
                ));
                assert(keys@.len() == tes0.len()) by {
                    assert(keys@.map_values(|s: String| s@).len() == keys@.len());
                    assert(tes0.map_values(|kv: (Seq<char>, ItemModel)| kv.0).len()
                        == tes0.len());
                }
                assert forall|j: int| 0 <= j < tes0.len() implies (#[trigger] keys@[j])@
                    == tes0[j].0 by {
                    assert(keys@.map_values(|s: String| s@)[j] == keys@[j]@);
                    assert(tes0.map_values(|kv: (Seq<char>, ItemModel)| kv.0)[j] == tes0[j].0);
                }
            }
            let mut converted = false;
            let mut i: usize = 0;
            while i < keys.len()
                invariant
                    doc_tidy(*doc),
                    i <= keys.len(),
                    p_cfg == opt_view(cfg),
                    keys@.len() == tes0.len(),
                    distinct_keys(tes0),
                    located(root0, p_cfg, kind@) == Some(tes0),
                    forall|j: int| 0 <= j < tes0.len() ==> (#[trigger] keys@[j])@ == tes0[j].0,
                    ({
                        let cur = located(doc_entries(*doc), p_cfg, kind@);
                        &&& cur matches Some(ct)
                        &&& ct.len() == tes0.len()
                        &&& (forall|j: int|
                            0 <= j < i ==> #[trigger] ct[j] == (
                                tes0[j].0,
                                convert_value(tes0[j].1),
                            ))
                        &&& (forall|j: int| i <= j < tes0.len() ==> #[trigger] ct[j] == tes0[j])
                        &&& doc_entries(*doc) == set_located(root0, p_cfg, kind@, ct)
                    }),
                    converted == exists|j: int|
                        0 <= j < i && convertible((#[trigger] tes0[j]).1),
                decreases keys.len() - i,
            {
                let ghost cur_root = doc_entries(*doc);
                let ghost ct = located(cur_root, p_cfg, kind@).unwrap();
                proof {
                    assert forall|j: int| 0 <= j < ct.len() implies (#[trigger] ct[j]).0
                        == tes0[j].0 by {
                        if j < i as int {
                            assert(ct[j] == (tes0[j].0, convert_value(tes0[j].1)));
                        } else {
                            assert(ct[j] == tes0[j]);
                        }
                    }
                    assert(distinct_keys(ct));
                    lemma_find_at(ct, keys@[i as int]@, i as int);
                    assert(lookup(ct, keys@[i as int]@) == Some(tes0[i as int].1));
                }
                let name = &keys[i];
                let item_opt = dep_entry_get(doc, cfg, kind, name.as_str());
                let item = item_opt.unwrap();
                proof {
                    assert(item_model(item) == tes0[i as int].1);
                }
                let mut rewrote = false;
                let version_opt = item_version_string(&item);
                match version_opt {
                    Some(ver) => {
                        let fresh = version_table_item(ver.as_str());
                        proof {
                            assert(item_model(fresh) == convert_value(tes0[i as int].1));
                        }
                        dep_table_swap(doc, cfg, kind, name.as_str(), fresh);
                        rewrote = true;
                    },
                    None => {
                        if item_is_inline_table(&item) {
                            let fresh = inline_item_into_table_item(item);
                            proof {
                                assert(item_model(fresh) == convert_value(tes0[i as int].1));
                            }
                            dep_table_swap(doc, cfg, kind, name.as_str(), fresh);
                            rewrote = true;
                        }
                    },
                }
                proof {
                    if rewrote {
                        let nct = set_in(ct, keys@[i as int]@, convert_value(tes0[i as int].1));
                        lemma_set_located(root0, p_cfg, kind@, ct, nct);
                        lemma_set_located(root0, p_cfg, kind@, nct, nct);
                        assert(doc_entries(*doc) == set_located(root0, p_cfg, kind@, nct));
                        assert(located(doc_entries(*doc), p_cfg, kind@) == Some(nct));
                        assert(nct =~= ct.update(
                            i as int,
                            (tes0[i as int].0, convert_value(tes0[i as int].1)),
                        ));
                    } else {
                        assert(!convertible(tes0[i as int].1));
                        assert(convert_value(tes0[i as int].1) == tes0[i as int].1);
                        let cur2 = located(doc_entries(*doc), p_cfg, kind@);
                        assert(cur2 == Some(ct));
                        assert(ct[i as int] == (tes0[i as int].0, convert_value(tes0[i as int].1)));
                    }
                }
                converted = converted || rewrote;
                i = i + 1;
            }
            proof {
                let ct = located(doc_entries(*doc), p_cfg, kind@).unwrap();
                assert(ct =~= convert_entries(tes0));
                assert(converted == any_convertible(tes0));
            }
            dep_table_sort(doc, cfg, kind);
            proof {
                lemma_set_located(root0, p_cfg, kind@, convert_entries(tes0), convert_table_entries(tes0));
                lemma_set_located(root0, p_cfg, kind@, convert_table_entries(tes0), tes0);
                assert(doc_entries(*doc) == set_located(
                    root0,
                    p_cfg,
                    kind@,
                    convert_table_entries(tes0),
                ));
            }
            dep_table_set_implicit(doc, cfg, kind);
            converted
        },
    }
}

} // verus!
