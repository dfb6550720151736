//! A collection session: the scope in which API identities must be unique
//! and the document header may be set once.
use vstd::prelude::*;

use crate::document::{
    crlf, lines_view, parse_statement, parsed, ApiDocument, DocModel, ParseError,
};

verus! {

/// Identity of an API document: its module name and its name.
pub open spec fn doc_key(d: DocModel) -> (Seq<char>, Seq<char>) {
    (d.module_name, d.name)
}

/// Mathematical value of a `CollectionSession`.
pub struct SessionModel {
    /// Identities accepted so far, in order of acceptance.
    pub keys: Seq<(Seq<char>, Seq<char>)>,
    pub header_set: bool,
}

/// Whether the session accepts document `d`: its identity is new.
pub open spec fn accepts(s: SessionModel, d: DocModel) -> bool {
    !s.keys.contains(doc_key(d))
}

/// The session after it has accepted `d`.
pub open spec fn after_accept(s: SessionModel, d: DocModel) -> SessionModel {
    SessionModel { keys: s.keys.push(doc_key(d)), header_set: s.header_set }
}

/// The lines of a header joined by CRLF.
pub open spec fn joined(lines: Seq<Seq<char>>) -> Seq<char>
    decreases lines.len(),
{
    if lines.len() == 0 {
        Seq::empty()
    } else if lines.len() == 1 {
        lines[0]
    } else {
        joined(lines.drop_last()) + crlf() + lines.last()
    }
}

/// Why a record was refused during collection.
#[derive(Clone, Debug, PartialEq, Eq)]
pub enum CollectError {
    /// The declaration carries no annotation lines.
    NoDocument,
    /// The annotation does not parse.
    Parse(ParseError),
    /// A document with this module and name was already collected.
    RepeatedApi { module_name: String, name: String },
    /// The header was already set in this session.
    RepeatedHeader,
    /// The header carries no lines.
    NoHeader,
}

/// Tracks which API identities have been collected and whether the header
/// has been set.
pub struct CollectionSession {
    keys: Vec<(String, String)>,
    header_set: bool,
}

impl View for CollectionSession {
    type V = SessionModel;

    closed spec fn view(&self) -> SessionModel {
        SessionModel {
            keys: self.keys@.map_values(|k: (String, String)| (k.0@, k.1@)),
            header_set: self.header_set,
        }
    }
}

impl CollectionSession {
    /// A session that has collected nothing.
    pub fn new() -> (r: CollectionSession)
        ensures
            r@.keys == Seq::<(Seq<char>, Seq<char>)>::empty(),
            !r@.header_set,
    {
        let r = CollectionSession { keys: Vec::new(), header_set: false };
        assert(r@.keys =~= Seq::<(Seq<char>, Seq<char>)>::empty());
        r
    }

    fn contains_key(&self, module_name: &String, name: &String) -> (r: bool)
        ensures
            r == self@.keys.contains((module_name@, name@)),
    {
        let ghost keys = self@.keys;
        let mut i: usize = 0;
        while i < self.keys.len()
            invariant
                keys == self@.keys,
                keys.len() == self.keys@.len(),
                i <= self.keys.len(),
                forall|j: int| 0 <= j < i ==> keys[j] != (module_name@, name@),
            decreases self.keys.len() - i,
        {
            assert(keys[i as int] == (self.keys@[i as int].0@, self.keys@[i as int].1@));
            if self.keys[i].0 == *module_name && self.keys[i].1 == *name {
                assert(keys[i as int] == (module_name@, name@));
                return true;
            }
            i = i + 1;
        }
        false
    }

    /// Collects the document that one declaration's annotation lines
    /// describe. It is refused when there are no lines, when they do not
    /// parse, or when its identity was collected before; otherwise its
    /// identity is recorded and the document returned.
    pub fn api(&mut self, doc_list: Vec<String>) -> (r: Result<ApiDocument, CollectError>)
        ensures
            doc_list@.len() == 0 ==> r == Err::<ApiDocument, CollectError>(CollectError::NoDocument)
                && final(self)@ == old(self)@,
            doc_list@.len() > 0 ==> match parsed(lines_view(doc_list@)) {
                Err(e) => final(self)@ == old(self)@ && match r {
                    Err(CollectError::Parse(x)) => x@ == e,
                    _ => false,
                },
                Ok(d) => if accepts(old(self)@, d) {
                    final(self)@ == after_accept(old(self)@, d) && match r {
                        Ok(doc) => doc@ == d,
                        _ => false,
                    }
                } else {
                    final(self)@ == old(self)@ && match r {
                        Err(CollectError::RepeatedApi { module_name, name }) => module_name@
                            == d.module_name && name@ == d.name,
                        _ => false,
                    }
                },
            },
    {
        if doc_list.len() == 0 {
            return Err(CollectError::NoDocument);
        }
        let doc = match parse_statement(doc_list) {
            Ok(d) => d,
            Err(e) => {
                return Err(CollectError::Parse(e));
            },
        };
        if self.contains_key(&doc.module_name, &doc.name) {
            return Err(
                CollectError::RepeatedApi {
                    module_name: doc.module_name.clone(),
                    name: doc.name.clone(),
                },
            );
        }
        let ghost before = self@;
        self.keys.push((doc.module_name.clone(), doc.name.clone()));
        assert(self@.keys =~= before.keys.push(doc_key(doc@)));
        Ok(doc)
    }

    /// Sets the document header from its lines, joined by CRLF. Only the
    /// first attempt in a session may set it: that attempt marks the header
    /// as set even when it fails for want of lines.
    pub fn doc_header(&mut self, doc_list: &Vec<String>) -> (r: Result<String, CollectError>)
        ensures
            old(self)@.header_set ==> r == Err::<String, CollectError>(CollectError::RepeatedHeader)
                && final(self)@ == old(self)@,
            !old(self)@.header_set ==> final(self)@ == (SessionModel {
                keys: old(self)@.keys,
                header_set: true,
            }) && (doc_list@.len() == 0 ==> r == Err::<String, CollectError>(
                CollectError::NoHeader,
            )) && (doc_list@.len() > 0 ==> match r {
                Ok(h) => h@ == joined(lines_view(doc_list@)),
                _ => false,
            }),
    {
        if self.header_set {
            return Err(CollectError::RepeatedHeader);
        }
        self.header_set = true;
        if doc_list.len() == 0 {
            return Err(CollectError::NoHeader);
        }
        let ghost lines = lines_view(doc_list@);
        let mut out = doc_list[0].clone();
        let mut i: usize = 1;
        assert(lines.subrange(0, 1) =~= seq![lines[0]]);
        while i < doc_list.len()
            invariant
                lines == lines_view(doc_list@),
                1 <= i <= doc_list.len(),
                out@ == joined(lines.subrange(0, i as int)),
            decreases doc_list.len() - i,
        {
            out.append("\r\n");
            out.append(doc_list[i].as_str());
            proof {
                reveal_strlit("\r\n");
                let pre = lines.subrange(0, i + 1);
                assert(pre.drop_last() =~= lines.subrange(0, i as int));
                assert("\r\n"@ =~= crlf());
            }
            i = i + 1;
        }
        assert(lines.subrange(0, i as int) =~= lines);
        Ok(out)
    }
}

/// Within one session, once a document has been accepted, every later
/// document with the same module name and name is rejected.
pub proof fn lemma_repeated_identity_rejected(s: SessionModel, first: DocModel, second: DocModel)
    requires
        accepts(s, first),
        doc_key(first) == doc_key(second),
    ensures
        !accepts(after_accept(s, first), second),
{
    assert(after_accept(s, first).keys[s.keys.len() as int] == doc_key(second));
}

} // verus!
