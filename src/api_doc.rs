//! Reconstructing a project's document from its log records, falling back to
//! a cached copy, and grouping its APIs by module.
use vstd::prelude::*;

use crate::document::{ApiDocument, DocModel};
use crate::file::{
    all_fit, fits_frame, frame, items_of, lemma_log_round_trip, log_of, scan, Item, ItemModel,
    LogError,
};
use crate::project::ProjectInfo;

verus! {

/// A project's header and its APIs in log order.
pub struct Document {
    pub header: String,
    pub api_list: Vec<ApiDocument>,
}

/// The APIs of one module, in log order.
pub struct GroupApi {
    pub module_name: String,
    pub api_list: Vec<ApiDocument>,
}

/// A project's header and its APIs grouped by module.
pub struct GroupedDocument {
    pub header: String,
    pub group_api: Vec<GroupApi>,
}

/// A log's header and the still-encoded payloads of its API records.
pub struct RawDocument {
    pub header: String,
    pub api_list: Vec<String>,
}

pub struct DocumentModel {
    pub header: Seq<char>,
    pub api_list: Seq<DocModel>,
}

pub struct GroupModel {
    pub module_name: Seq<char>,
    pub api_list: Seq<DocModel>,
}

pub struct GroupedModel {
    pub header: Seq<char>,
    pub groups: Seq<GroupModel>,
}

pub struct RawModel {
    pub header: Seq<char>,
    pub api_list: Seq<Seq<char>>,
}

pub open spec fn docs_view(v: Seq<ApiDocument>) -> Seq<DocModel> {
    v.map_values(|d: ApiDocument| d@)
}

impl View for Document {
    type V = DocumentModel;

    open spec fn view(&self) -> DocumentModel {
        DocumentModel { header: self.header@, api_list: docs_view(self.api_list@) }
    }
}

impl View for GroupApi {
    type V = GroupModel;

    open spec fn view(&self) -> GroupModel {
        GroupModel { module_name: self.module_name@, api_list: docs_view(self.api_list@) }
    }
}

pub open spec fn groups_view(v: Seq<GroupApi>) -> Seq<GroupModel> {
    v.map_values(|g: GroupApi| g@)
}

impl View for GroupedDocument {
    type V = GroupedModel;

    open spec fn view(&self) -> GroupedModel {
        GroupedModel { header: self.header@, groups: groups_view(self.group_api@) }
    }
}

impl View for RawDocument {
    type V = RawModel;

    open spec fn view(&self) -> RawModel {
        RawModel { header: self.header@, api_list: self.api_list@.map_values(|s: String| s@) }
    }
}

/// Sorts log items into the header (the last header record wins, empty when
/// there is none) and the payloads of the API records in order; fails with
/// the tag of the first item that is neither.
pub open spec fn split_items(items: Seq<ItemModel>) -> Result<RawModel, u32>
    decreases items.len(),
{
    if items.len() == 0 {
        Ok(RawModel { header: Seq::empty(), api_list: Seq::empty() })
    } else {
        match split_items(items.drop_last()) {
            Err(t) => Err(t),
            Ok(acc) => {
                let it = items.last();
                if it.item_type == 0 {
                    Ok(RawModel { header: it.content, api_list: acc.api_list })
                } else if it.item_type == 1 {
                    Ok(RawModel { header: acc.header, api_list: acc.api_list.push(it.content) })
                } else {
                    Err(it.item_type)
                }
            },
        }
    }
}

/// Sorts the items read from a log into header and API payloads; an item of
/// any other kind fails the whole read with its tag.
pub fn get_api_list_detail(items: &Vec<Item>) -> (r: Result<RawDocument, u32>)
    ensures
        match (r, split_items(items@.map_values(|i: Item| i@))) {
            (Ok(d), Ok(m)) => d@ == m,
            (Err(t), Err(u)) => t == u,
            _ => false,
        },
{
    let ghost all = items@.map_values(|i: Item| i@);
    let mut header = String::new();
    let mut api_list: Vec<String> = Vec::new();
    let mut i: usize = 0;
    assert(all.subrange(0, 0) =~= Seq::<ItemModel>::empty());
    assert(api_list@.map_values(|s: String| s@) =~= Seq::<Seq<char>>::empty());
    while i < items.len()
        invariant
            all == items@.map_values(|i: Item| i@),
            i <= items.len(),
            split_items(all.subrange(0, i as int)) == Ok::<RawModel, u32>(
                RawModel { header: header@, api_list: api_list@.map_values(|s: String| s@) },
            ),
        decreases items.len() - i,
    {
        proof {
            let pre = all.subrange(0, i + 1);
            assert(pre.drop_last() =~= all.subrange(0, i as int));
            assert(pre.last() == items@[i as int]@);
        }
        let item = &items[i];
        if item.item_type == 0 {
            header = item.content.clone();
        } else if item.item_type == 1 {
            let ghost before = api_list@;
            api_list.push(item.content.clone());
            assert(api_list@.map_values(|s: String| s@) =~= before.map_values(|s: String| s@).push(
                item.content@,
            ));
        } else {
            proof {
                lemma_split_failure_sticks(all, i + 1, item.item_type);
            }
            return Err(item.item_type);
        }
        i = i + 1;
    }
    assert(all.subrange(0, i as int) =~= all);
    Ok(RawDocument { header, api_list })
}

proof fn lemma_split_failure_sticks(items: Seq<ItemModel>, k: int, t: u32)
    requires
        0 <= k <= items.len(),
        split_items(items.subrange(0, k)) == Err::<RawModel, u32>(t),
    ensures
        split_items(items) == Err::<RawModel, u32>(t),
    decreases items.len() - k,
{
    if k == items.len() {
        assert(items.subrange(0, k) =~= items);
    } else {
        assert(items.drop_last().subrange(0, k) =~= items.subrange(0, k));
        lemma_split_failure_sticks(items.drop_last(), k, t);
    }
}

/// The message reporting that a project's document could not be loaded.
pub open spec fn load_error(name: Seq<char>, cause: Seq<char>) -> Seq<char> {
    "load "@ + name + " err:"@ + cause
}

/// View of a load outcome.
pub open spec fn load_view(r: Result<Document, String>) -> Result<DocumentModel, Seq<char>> {
    match r {
        Ok(d) => Ok(d@),
        Err(e) => Err(e@),
    }
}

/// Chooses a project's document: the one read from its log when that read
/// succeeded; otherwise the one read from its cache copy (`cache`, read only
/// after the log failed), however stale; when both fail, an error naming
/// the project and the log's failure.
pub fn get_api_list(
    project_item: &ProjectInfo,
    primary: Result<Document, String>,
    cache: Option<Result<Document, String>>,
) -> (r: Result<Document, String>)
    ensures
        primary is Ok ==> load_view(r) == load_view(primary),
        primary is Err ==> match cache {
            Some(Ok(c)) => load_view(r) == load_view(Ok(c)),
            _ => load_view(r) == Err::<DocumentModel, Seq<char>>(
                load_error(project_item.name@, primary->Err_0@),
            ),
        },
{
    match primary {
        Ok(d) => Ok(d),
        Err(cause) => match cache {
            Some(Ok(c)) => Ok(c),
            _ => {
                let mut msg = String::from_str("load ");
                msg.append(project_item.name.as_str());
                msg.append(" err:");
                msg.append(cause.as_str());
                Err(msg)
            },
        },
    }
}

/// `groups` after adding `d`: to the group of its module when there is one,
/// else as a new last group.
pub open spec fn add_to_groups(groups: Seq<GroupModel>, d: DocModel) -> Seq<GroupModel> {
    if exists|k: int| 0 <= k < groups.len() && #[trigger] groups[k].module_name == d.module_name {
        groups.map_values(
            |g: GroupModel|
                if g.module_name == d.module_name {
                    GroupModel { module_name: g.module_name, api_list: g.api_list.push(d) }
                } else {
                    g
                },
        )
    } else {
        groups.push(GroupModel { module_name: d.module_name, api_list: seq![d] })
    }
}

/// Documents grouped by exact module name: groups in order of first
/// appearance, each holding its documents in their input order.
pub open spec fn grouped(docs: Seq<DocModel>) -> Seq<GroupModel>
    decreases docs.len(),
{
    if docs.len() == 0 {
        Seq::empty()
    } else {
        add_to_groups(grouped(docs.drop_last()), docs.last())
    }
}

/// No two groups share a module name.
pub open spec fn distinct_modules(groups: Seq<GroupModel>) -> bool {
    forall|a: int, b: int|
        0 <= a < b < groups.len() ==> #[trigger] groups[a].module_name
            != #[trigger] groups[b].module_name
}

/// Index of the group of module `name`, or the number of groups when there
/// is none.
fn find_group(groups: &Vec<GroupApi>, name: &String) -> (r: usize)
    ensures
        r <= groups@.len(),
        r < groups@.len() ==> groups_view(groups@)[r as int].module_name == name@,
        forall|k: int| 0 <= k < r ==> (#[trigger] groups_view(groups@)[k]).module_name != name@,
{
    let mut j: usize = 0;
    while j < groups.len()
        invariant
            j <= groups@.len(),
            forall|k: int| 0 <= k < j ==> (#[trigger] groups_view(groups@)[k]).module_name != name@,
        decreases groups.len() - j,
    {
        assert(groups_view(groups@)[j as int] == groups@[j as int]@);
        if groups[j].module_name == *name {
            return j;
        }
        j = j + 1;
    }
    j
}

/// Groups documents by module, keeping first-seen module order and the
/// order of documents within each module.
pub fn group_api_list(api_list: &Vec<ApiDocument>) -> (r: Vec<GroupApi>)
    ensures
        groups_view(r@) == grouped(docs_view(api_list@)),
        distinct_modules(groups_view(r@)),
{
    let ghost docs = docs_view(api_list@);
    let mut groups: Vec<GroupApi> = Vec::new();
    let mut i: usize = 0;
    assert(docs.subrange(0, 0) =~= Seq::<DocModel>::empty());
    assert(groups_view(groups@) =~= Seq::<GroupModel>::empty());
    while i < api_list.len()
        invariant
            docs == docs_view(api_list@),
            i <= api_list.len(),
            groups_view(groups@) == grouped(docs.subrange(0, i as int)),
            distinct_modules(groups_view(groups@)),
        decreases api_list.len() - i,
    {
        let ghost gs = groups_view(groups@);
        let doc = &api_list[i];
        let ghost d = doc@;
        proof {
            let pre = docs.subrange(0, i + 1);
            assert(pre.drop_last() =~= docs.subrange(0, i as int));
            assert(pre.last() == d);
        }
        let j = find_group(&groups, &doc.module_name);
        if j < groups.len() {
            assert(gs[j as int].module_name == d.module_name);
            let mut g = groups.remove(j);
            let ghost old_api = g.api_list@;
            g.api_list.push(doc.duplicate());
            assert(docs_view(g.api_list@) =~= docs_view(old_api).push(d));
            groups.insert(j, g);
            proof {
                let want = add_to_groups(gs, d);
                assert(gs[j as int].module_name == d.module_name);
                assert(want =~= groups_view(groups@)) by {
                    assert forall|k: int| 0 <= k < gs.len() implies #[trigger] want[k]
                        == groups_view(groups@)[k] by {
                        if k != j {
                            assert(gs[k].module_name != d.module_name);
                        }
                    }
                }
            }
        } else {
            let ghost before = groups@;
            let mut list: Vec<ApiDocument> = Vec::new();
            list.push(doc.duplicate());
            assert(docs_view(list@) =~= seq![d]);
            groups.push(GroupApi { module_name: doc.module_name.clone(), api_list: list });
            assert(groups_view(groups@) =~= gs.push(
                GroupModel { module_name: d.module_name, api_list: seq![d] },
            ));
        }
        i = i + 1;
    }
    assert(docs.subrange(0, i as int) =~= docs);
    groups
}

/// A project's document grouped by module: the document `get_api_list`
/// chooses, with its APIs grouped by `group_api_list`.
pub fn get_grouped_api_list(
    project_item: &ProjectInfo,
    primary: Result<Document, String>,
    cache: Option<Result<Document, String>>,
) -> (r: Result<GroupedDocument, String>)
    ensures
        primary is Ok ==> match (r, primary) {
            (Ok(g), Ok(p)) => g@ == (GroupedModel {
                header: p@.header,
                groups: grouped(p@.api_list),
            }),
            _ => false,
        },
        primary is Err ==> match cache {
            Some(Ok(c)) => match r {
                Ok(g) => g@ == (GroupedModel {
                    header: c@.header,
                    groups: grouped(c@.api_list),
                }),
                _ => false,
            },
            _ => match r {
                Err(e) => e@ == load_error(project_item.name@, primary->Err_0@),
                _ => false,
            },
        },
{
    let doc_obj = match get_api_list(project_item, primary, cache) {
        Ok(d) => d,
        Err(e) => {
            return Err(e);
        },
    };
    let group_api = group_api_list(&doc_obj.api_list);
    Ok(GroupedDocument { header: doc_obj.header, group_api })
}

/// The documents of `docs` whose module is `m`, in their input order.
pub open spec fn of_module(docs: Seq<DocModel>, m: Seq<char>) -> Seq<DocModel> {
    docs.filter(|d: DocModel| d.module_name == m)
}

/// Some group of `groups` is the group of module `m`.
pub open spec fn has_group(groups: Seq<GroupModel>, m: Seq<char>) -> bool {
    exists|i: int| 0 <= i < groups.len() && (#[trigger] groups[i]).module_name == m
}

proof fn lemma_of_module_push(docs: Seq<DocModel>, m: Seq<char>)
    requires
        docs.len() > 0,
    ensures
        of_module(docs, m) == if docs.last().module_name == m {
            of_module(docs.drop_last(), m).push(docs.last())
        } else {
            of_module(docs.drop_last(), m)
        },
{
    reveal(Seq::filter);
}

proof fn lemma_of_module_absent(docs: Seq<DocModel>, m: Seq<char>)
    requires
        forall|k: int| 0 <= k < docs.len() ==> (#[trigger] docs[k]).module_name != m,
    ensures
        of_module(docs, m) == Seq::<DocModel>::empty(),
    decreases docs.len(),
{
    reveal(Seq::filter);
    if docs.len() > 0 {
        let pre = docs.drop_last();
        assert forall|k: int| 0 <= k < pre.len() implies (#[trigger] pre[k]).module_name != m by {
            assert(pre[k] == docs[k]);
        }
        lemma_of_module_absent(pre, m);
        lemma_of_module_push(docs, m);
    }
}

/// Grouping partitions the documents by module: module names are distinct,
/// each group holds exactly the documents of its module in their input
/// order, and every document's module has a group.
pub proof fn lemma_grouping_partitions(docs: Seq<DocModel>)
    ensures
        distinct_modules(grouped(docs)),
        forall|i: int|
            0 <= i < grouped(docs).len() ==> (#[trigger] grouped(docs)[i]).api_list == of_module(
                docs,
                grouped(docs)[i].module_name,
            ),
        forall|k: int| 0 <= k < docs.len() ==> has_group(grouped(docs), (#[trigger] docs[k]).module_name),
    decreases docs.len(),
{
    if docs.len() > 0 {
        let pre = docs.drop_last();
        let d = docs.last();
        let g = grouped(pre);
        let r = grouped(docs);
        lemma_grouping_partitions(pre);
        assert forall|m: Seq<char>| #[trigger] of_module(docs, m) == if d.module_name == m {
            of_module(pre, m).push(d)
        } else {
            of_module(pre, m)
        } by {
            lemma_of_module_push(docs, m);
        }
        if exists|k: int| 0 <= k < g.len() && #[trigger] g[k].module_name == d.module_name {
            assert(r.len() == g.len());
            assert forall|i: int| 0 <= i < r.len() implies (#[trigger] r[i]).module_name
                == g[i].module_name by {}
            assert forall|i: int| 0 <= i < r.len() implies (#[trigger] r[i]).api_list == of_module(
                docs,
                r[i].module_name,
            ) by {
                assert(g[i].api_list == of_module(pre, g[i].module_name));
            }
            assert forall|k: int| 0 <= k < docs.len() implies has_group(
                r,
                (#[trigger] docs[k]).module_name,
            ) by {
                if k < pre.len() {
                    assert(pre[k] == docs[k]);
                    let i = choose|i: int| 0 <= i < g.len() && (#[trigger] g[i]).module_name
                        == pre[k].module_name;
                    assert(r[i].module_name == docs[k].module_name);
                } else {
                    let i = choose|i: int| 0 <= i < g.len() && #[trigger] g[i].module_name
                        == d.module_name;
                    assert(r[i].module_name == docs[k].module_name);
                }
            }
        } else {
            let new_group = GroupModel { module_name: d.module_name, api_list: seq![d] };
            assert(r == g.push(new_group));
            assert forall|k: int| 0 <= k < pre.len() implies (#[trigger] pre[k]).module_name
                != d.module_name by {
                if pre[k].module_name == d.module_name {
                    assert(has_group(g, pre[k].module_name));
                }
            }
            lemma_of_module_absent(pre, d.module_name);
            assert(of_module(docs, d.module_name) =~= seq![d]);
            assert forall|i: int| 0 <= i < r.len() implies (#[trigger] r[i]).api_list == of_module(
                docs,
                r[i].module_name,
            ) by {
                if i < g.len() {
                    assert(r[i] == g[i]);
                    assert(g[i].api_list == of_module(pre, g[i].module_name));
                }
            }
            assert forall|k: int| 0 <= k < docs.len() implies has_group(
                r,
                (#[trigger] docs[k]).module_name,
            ) by {
                if k < pre.len() {
                    assert(pre[k] == docs[k]);
                    let i = choose|i: int| 0 <= i < g.len() && (#[trigger] g[i]).module_name
                        == pre[k].module_name;
                    assert(r[i] == g[i]);
                } else {
                    assert(r[g.len() as int].module_name == docs[k].module_name);
                }
            }
            assert forall|a: int, b: int| 0 <= a < b < r.len() implies #[trigger] r[a].module_name
                != #[trigger] r[b].module_name by {
                if b == g.len() {
                    assert(r[a] == g[a]);
                } else {
                    assert(r[a] == g[a] && r[b] == g[b]);
                }
            }
        }
    }
}

/// A fresh log holding one API record reads back as that one record, and
/// splits into an empty header and exactly that record's payload.
pub proof fn lemma_single_api_record(text: Seq<char>)
    requires
        fits_frame(text),
    ensures
        scan(frame(1, text)) == Ok::<Seq<ItemModel>, LogError>(
            seq![ItemModel { item_type: 1, content: text }],
        ),
        split_items(seq![ItemModel { item_type: 1, content: text }]) == Ok::<RawModel, u32>(
            RawModel { header: Seq::empty(), api_list: seq![text] },
        ),
{
    let records = seq![(1u8, text)];
    assert(all_fit(records));
    lemma_log_round_trip(records);
    assert(records.drop_first() =~= Seq::<(u8, Seq<char>)>::empty());
    assert(records[0] == (1u8, text));
    assert(log_of(records.drop_first()) == Seq::<u8>::empty());
    assert(log_of(records) =~= frame(1, text) + Seq::<u8>::empty());
    assert(frame(1, text) + Seq::<u8>::empty() =~= frame(1, text));
    assert(items_of(records) =~= seq![ItemModel { item_type: 1, content: text }]);
    let items = seq![ItemModel { item_type: 1, content: text }];
    assert(items.drop_last() =~= Seq::<ItemModel>::empty());
    assert(split_items(items.drop_last()) == Ok::<RawModel, u32>(
        RawModel { header: Seq::empty(), api_list: Seq::empty() },
    ));
    assert(items.last() == ItemModel { item_type: 1, content: text });
    assert(Seq::<Seq<char>>::empty().push(text) =~= seq![text]);
}

} // verus!
