//! API document records and the annotation parser that builds them from an
//! ordered list of comment lines.
use vstd::prelude::*;

use crate::text::{
    get_word, is_ascii_space, is_blank, is_space, lemma_split_word_at, lemma_trimmed_end_keeps_first,
    lemma_trimmed_start_skip,
    next_word, next_word_str, split_word, str_eq, trim_start_str, trim_str, trimmed, trimmed_end,
    trimmed_start,
};

verus! {

/// How the return content of an API is to be read.
#[derive(Clone, Copy, Debug, PartialEq, Eq, Structural)]
pub enum ReturnContentType {
    String,
    Type,
}

/// One parameter of an API, in declaration order.
#[derive(Clone, Debug)]
pub struct ApiParam {
    pub name: String,
    pub param_type: String,
    pub required: bool,
    pub desc: String,
}

/// One API document, built from one contiguous run of annotation lines.
#[derive(Clone, Debug)]
pub struct ApiDocument {
    pub module_name: String,
    pub http_method: String,
    pub name: String,
    pub path: String,
    pub desc: String,
    pub param_list: Vec<ApiParam>,
    pub return_content_type: ReturnContentType,
    pub return_content: String,
    pub return_desc: String,
}

/// Mathematical value of an `ApiParam`.
pub struct ParamModel {
    pub name: Seq<char>,
    pub param_type: Seq<char>,
    pub required: bool,
    pub desc: Seq<char>,
}

/// Mathematical value of an `ApiDocument`.
pub struct DocModel {
    pub module_name: Seq<char>,
    pub http_method: Seq<char>,
    pub name: Seq<char>,
    pub path: Seq<char>,
    pub desc: Seq<char>,
    pub params: Seq<ParamModel>,
    pub return_content_type: ReturnContentType,
    pub return_content: Seq<char>,
    pub return_desc: Seq<char>,
}

impl View for ApiParam {
    type V = ParamModel;

    open spec fn view(&self) -> ParamModel {
        ParamModel {
            name: self.name@,
            param_type: self.param_type@,
            required: self.required,
            desc: self.desc@,
        }
    }
}

impl View for ApiDocument {
    type V = DocModel;

    open spec fn view(&self) -> DocModel {
        DocModel {
            module_name: self.module_name@,
            http_method: self.http_method@,
            name: self.name@,
            path: self.path@,
            desc: self.desc@,
            params: self.param_list@.map_values(|p: ApiParam| p@),
            return_content_type: self.return_content_type,
            return_content: self.return_content@,
            return_desc: self.return_desc@,
        }
    }
}

/// Why an annotation could not be turned into a document.
#[derive(Clone, Debug, PartialEq, Eq)]
pub enum ParseError {
    /// A module segment holds more than its marker line.
    MultipleModuleLines,
    /// The module marker carries no name.
    MissingModuleName,
    /// A line of the fn segment is empty.
    EmptyFnLine,
    MissingFnName,
    MissingApiPath,
    MissingHttpMethod,
    MissingParamName,
    /// The named parameter has no type.
    MissingParamType(String),
}

/// Mathematical value of a `ParseError`.
pub enum ParseFailure {
    MultipleModuleLines,
    MissingModuleName,
    EmptyFnLine,
    MissingFnName,
    MissingApiPath,
    MissingHttpMethod,
    MissingParamName,
    MissingParamType(Seq<char>),
}

impl View for ParseError {
    type V = ParseFailure;

    open spec fn view(&self) -> ParseFailure {
        match self {
            ParseError::MultipleModuleLines => ParseFailure::MultipleModuleLines,
            ParseError::MissingModuleName => ParseFailure::MissingModuleName,
            ParseError::EmptyFnLine => ParseFailure::EmptyFnLine,
            ParseError::MissingFnName => ParseFailure::MissingFnName,
            ParseError::MissingApiPath => ParseFailure::MissingApiPath,
            ParseError::MissingHttpMethod => ParseFailure::MissingHttpMethod,
            ParseError::MissingParamName => ParseFailure::MissingParamName,
            ParseError::MissingParamType(n) => ParseFailure::MissingParamType(n@),
        }
    }
}

/// The segment that the parser is in.
#[derive(Clone, Copy, Debug, PartialEq, Eq, Structural)]
pub enum SegmentType {
    Idle,
    ModuleName,
    FnName,
    Param,
    Return,
}

/// Separator placed before each line that extends a description or content.
pub open spec fn crlf() -> Seq<char> {
    seq!['\r', '\n']
}

/// The marker words of the segments and the words the handlers recognise.
pub open spec fn module_kw() -> Seq<char> {
    seq!['m', 'o', 'd', 'u', 'l', 'e']
}

pub open spec fn fn_kw() -> Seq<char> {
    seq!['f', 'n']
}

pub open spec fn param_kw() -> Seq<char> {
    seq!['p', 'a', 'r', 'a', 'm']
}

pub open spec fn return_kw() -> Seq<char> {
    seq!['r', 'e', 't', 'u', 'r', 'n']
}

pub open spec fn required_kw() -> Seq<char> {
    seq!['r', 'e', 'q', 'u', 'i', 'r', 'e', 'd']
}

pub open spec fn optional_kw() -> Seq<char> {
    seq!['o', 'p', 't', 'i', 'o', 'n', 'a', 'l']
}

pub open spec fn string_kw() -> Seq<char> {
    seq!['s', 't', 'r', 'i', 'n', 'g']
}

pub open spec fn type_kw() -> Seq<char> {
    seq!['t', 'y', 'p', 'e']
}

/// The document every parse starts from.
pub open spec fn empty_doc() -> DocModel {
    DocModel {
        module_name: Seq::empty(),
        http_method: Seq::empty(),
        name: Seq::empty(),
        path: Seq::empty(),
        desc: Seq::empty(),
        params: Seq::empty(),
        return_content_type: ReturnContentType::String,
        return_content: Seq::empty(),
        return_desc: Seq::empty(),
    }
}

/// A line of the module segment: only the marker line is allowed, and its
/// trimmed payload is the module name.
pub open spec fn module_step(d: DocModel, is_first: bool, line: Seq<char>) -> Result<
    DocModel,
    ParseFailure,
> {
    if !is_first {
        Err(ParseFailure::MultipleModuleLines)
    } else if line.len() == 0 {
        Err(ParseFailure::MissingModuleName)
    } else {
        Ok(DocModel { module_name: trimmed(line), ..d })
    }
}

/// A line of the fn segment. The marker's payload is `name path method desc`;
/// a later line extends the description after a CRLF.
pub open spec fn fn_step(d: DocModel, is_first: bool, line: Seq<char>) -> Result<
    DocModel,
    ParseFailure,
> {
    if line.len() == 0 {
        Err(ParseFailure::EmptyFnLine)
    } else if !is_first {
        Ok(DocModel { desc: d.desc + crlf() + line, ..d })
    } else {
        match next_word(line) {
            None => Err(ParseFailure::MissingFnName),
            Some(w1) => match next_word(w1.1) {
                None => Err(ParseFailure::MissingApiPath),
                Some(w2) => match next_word(w2.1) {
                    None => Err(ParseFailure::MissingHttpMethod),
                    Some(w3) => {
                        let rest = trimmed_start(w3.1);
                        Ok(
                            DocModel {
                                name: w1.0,
                                path: w2.0,
                                http_method: w3.0,
                                desc: if rest.len() == 0 {
                                    d.desc
                                } else {
                                    rest
                                },
                                ..d
                            },
                        )
                    },
                },
            },
        }
    }
}

/// Whether `rest` starts with a `required` flag, and the text after the flag.
pub open spec fn required_flag(rest: Seq<char>) -> (bool, Seq<char>) {
    match next_word(rest) {
        Some(w) => if w.0 == required_kw() {
            (true, w.1)
        } else if w.0 == optional_kw() {
            (false, w.1)
        } else {
            (false, rest)
        },
        None => (false, rest),
    }
}

/// The parameter that a line `name type [required|optional] desc` declares.
pub open spec fn param_of_line(line: Seq<char>) -> Result<ParamModel, ParseFailure> {
    match next_word(line) {
        None => Err(ParseFailure::MissingParamName),
        Some(w1) => match next_word(w1.1) {
            None => Err(ParseFailure::MissingParamType(w1.0)),
            Some(w2) => {
                let f = required_flag(w2.1);
                Ok(
                    ParamModel {
                        name: w1.0,
                        param_type: w2.0,
                        required: f.0,
                        desc: trimmed(f.1),
                    },
                )
            },
        },
    }
}

/// A line of the param segment: the marker line adds nothing, every later
/// line appends one parameter.
pub open spec fn param_step(d: DocModel, is_first: bool, line: Seq<char>) -> Result<
    DocModel,
    ParseFailure,
> {
    if is_first {
        Ok(d)
    } else {
        match param_of_line(line) {
            Ok(p) => Ok(DocModel { params: d.params.push(p), ..d }),
            Err(e) => Err(e),
        }
    }
}

/// A line of the return segment. The first line is split into its leading
/// word and the rest: a leading `string` or `type` picks the content type and
/// the rest is the description; any other first line is kept whole as the
/// description. Later lines extend the content after a CRLF.
pub open spec fn return_step(d: DocModel, is_first: bool, line: Seq<char>) -> DocModel {
    if is_first {
        match split_word(line) {
            Some(w) => if w.0 == string_kw() {
                DocModel {
                    return_desc: w.1,
                    return_content_type: ReturnContentType::String,
                    ..d
                }
            } else if w.0 == type_kw() {
                DocModel { return_desc: w.1, return_content_type: ReturnContentType::Type, ..d }
            } else {
                DocModel { return_desc: line, ..d }
            },
            None => if line == string_kw() {
                DocModel {
                    return_desc: Seq::empty(),
                    return_content_type: ReturnContentType::String,
                    ..d
                }
            } else if line == type_kw() {
                DocModel {
                    return_desc: Seq::empty(),
                    return_content_type: ReturnContentType::Type,
                    ..d
                }
            } else {
                DocModel { return_desc: line, ..d }
            },
        }
    } else {
        DocModel { return_content: d.return_content + crlf() + line, ..d }
    }
}

/// What a line is: the segment whose marker it is (or `None` for a
/// continuation line), and the text handed to that segment.
pub open spec fn classify(line: Seq<char>) -> (Option<SegmentType>, Seq<char>) {
    let t = trimmed_start(line);
    let w: (Seq<char>, Seq<char>) = match split_word(t) {
        Some(p) => p,
        None => (t, Seq::empty()),
    };
    if w.0 == module_kw() {
        (Some(SegmentType::ModuleName), trimmed_start(w.1))
    } else if w.0 == fn_kw() {
        (Some(SegmentType::FnName), trimmed_start(w.1))
    } else if trimmed(line) == param_kw() {
        (Some(SegmentType::Param), Seq::empty())
    } else if trimmed(line) == return_kw() {
        (Some(SegmentType::Return), Seq::empty())
    } else if t.len() > 0 && t[0] == '+' {
        (None, t.drop_first())
    } else {
        (None, t)
    }
}

/// Hands one line's text to the handler of segment `seg`.
pub open spec fn segment_step(seg: SegmentType, d: DocModel, is_first: bool, text: Seq<char>) -> Result<
    DocModel,
    ParseFailure,
> {
    match seg {
        SegmentType::Idle => Ok(d),
        SegmentType::ModuleName => module_step(d, is_first, text),
        SegmentType::FnName => fn_step(d, is_first, text),
        SegmentType::Param => param_step(d, is_first, text),
        SegmentType::Return => Ok(return_step(d, is_first, text)),
    }
}

/// Where the parser stands between two lines.
pub struct ParserState {
    pub doc: DocModel,
    pub segment: SegmentType,
    /// A module marker line has been accepted.
    pub module_seen: bool,
    /// A return marker was the last line of the return segment so far: the
    /// next line of the segment is its first line.
    pub return_pending: bool,
}

/// The state after one line. A second module marker fails. A return marker
/// only opens the return segment; the line after it is the segment's first
/// line. Every other line goes to the handler of its segment, as that
/// segment's first line when it is a marker line.
pub open spec fn line_step(s: ParserState, line: Seq<char>) -> Result<ParserState, ParseFailure> {
    let c = classify(line);
    let is_module = c.0 == Some(SegmentType::ModuleName);
    if is_module && s.module_seen {
        Err(ParseFailure::MultipleModuleLines)
    } else if c.0 == Some(SegmentType::Return) {
        Ok(ParserState { segment: SegmentType::Return, return_pending: true, ..s })
    } else {
        let seg = match c.0 {
            Some(m) => m,
            None => s.segment,
        };
        let first = if seg == SegmentType::Return {
            s.return_pending
        } else {
            c.0 is Some
        };
        match segment_step(seg, s.doc, first, c.1) {
            Ok(d) => Ok(
                ParserState {
                    doc: d,
                    segment: seg,
                    module_seen: s.module_seen || is_module,
                    return_pending: false,
                },
            ),
            Err(e) => Err(e),
        }
    }
}

/// The state after the given lines, or the first failure.
pub open spec fn parse_state(lines: Seq<Seq<char>>) -> Result<ParserState, ParseFailure>
    decreases lines.len(),
{
    if lines.len() == 0 {
        Ok(
            ParserState {
                doc: empty_doc(),
                segment: SegmentType::Idle,
                module_seen: false,
                return_pending: false,
            },
        )
    } else {
        match parse_state(lines.drop_last()) {
            Err(e) => Err(e),
            Ok(s) => line_step(s, lines.last()),
        }
    }
}

/// The document that a run of annotation lines describes.
pub open spec fn parsed(lines: Seq<Seq<char>>) -> Result<DocModel, ParseFailure> {
    match parse_state(lines) {
        Ok(s) => Ok(s.doc),
        Err(e) => Err(e),
    }
}

/// Views of a list of lines.
pub open spec fn lines_view(lines: Seq<String>) -> Seq<Seq<char>> {
    lines.map_values(|l: String| l@)
}

/// View of a parse outcome.
pub open spec fn parse_result_view(r: Result<ApiDocument, ParseError>) -> Result<
    DocModel,
    ParseFailure,
> {
    match r {
        Ok(d) => Ok(d@),
        Err(e) => Err(e@),
    }
}

impl ParamModel {
    pub open spec fn empty() -> ParamModel {
        ParamModel {
            name: Seq::empty(),
            param_type: Seq::empty(),
            required: false,
            desc: Seq::empty(),
        }
    }
}

impl Default for ApiParam {
    fn default() -> (r: Self)
        ensures
            r@ == ParamModel::empty(),
    {
        ApiParam {
            name: String::new(),
            param_type: String::new(),
            required: false,
            desc: String::new(),
        }
    }
}

impl Default for ApiDocument {
    fn default() -> (r: Self)
        ensures
            r@ == empty_doc(),
    {
        let r = ApiDocument {
            module_name: String::new(),
            http_method: String::new(),
            name: String::new(),
            path: String::new(),
            desc: String::new(),
            param_list: Vec::new(),
            return_content_type: ReturnContentType::String,
            return_content: String::new(),
            return_desc: String::new(),
        };
        assert(r@.params =~= Seq::<ParamModel>::empty());
        r
    }
}

fn push_crlf(s: &mut String)
    ensures
        final(s)@ == old(s)@ + crlf(),
{
    s.append("\r\n");
    proof {
        reveal_strlit("\r\n");
    }
    assert("\r\n"@ =~= crlf());
}

impl ApiParam {
    /// A copy of this parameter.
    pub fn duplicate(&self) -> (r: ApiParam)
        ensures
            r@ == self@,
    {
        ApiParam {
            name: self.name.clone(),
            param_type: self.param_type.clone(),
            required: self.required,
            desc: self.desc.clone(),
        }
    }
}

impl ApiDocument {
    /// A copy of this document.
    pub fn duplicate(&self) -> (r: ApiDocument)
        ensures
            r@ == self@,
    {
        let mut params: Vec<ApiParam> = Vec::new();
        let mut i: usize = 0;
        while i < self.param_list.len()
            invariant
                i <= self.param_list.len(),
                params@.len() == i,
                forall|j: int| 0 <= j < i ==> (#[trigger] params@[j])@ == self.param_list@[j]@,
            decreases self.param_list.len() - i,
        {
            params.push(self.param_list[i].duplicate());
            i = i + 1;
        }
        let r = ApiDocument {
            module_name: self.module_name.clone(),
            http_method: self.http_method.clone(),
            name: self.name.clone(),
            path: self.path.clone(),
            desc: self.desc.clone(),
            param_list: params,
            return_content_type: self.return_content_type,
            return_content: self.return_content.clone(),
            return_desc: self.return_desc.clone(),
        };
        assert(r@.params =~= self@.params);
        r
    }
}


/// How a handler's outcome relates the document before and after the call:
/// on success the document is the one `s` gives, on failure it is unchanged
/// and the error is the one `s` gives.
pub open spec fn step_outcome(
    before: DocModel,
    after: DocModel,
    r: Result<(), ParseError>,
    s: Result<DocModel, ParseFailure>,
) -> bool {
    match (r, s) {
        (Ok(_), Ok(d)) => after == d,
        (Err(x), Err(e)) => x@ == e && after == before,
        _ => false,
    }
}

impl ApiDocument {
    /// Handles a line of the module segment.
    pub fn parse_module_name(&mut self, is_first: bool, line: &str) -> (r: Result<(), ParseError>)
        ensures
            step_outcome(old(self)@, final(self)@, r, module_step(old(self)@, is_first, line@)),
    {
        if !is_first {
            return Err(ParseError::MultipleModuleLines);
        }
        if line.unicode_len() == 0 {
            return Err(ParseError::MissingModuleName);
        }
        self.module_name = String::from_str(trim_str(line));
        Ok(())
    }

    /// Handles a line of the fn segment.
    pub fn parse_fn_line(&mut self, is_first: bool, line: &str) -> (r: Result<(), ParseError>)
        ensures
            step_outcome(old(self)@, final(self)@, r, fn_step(old(self)@, is_first, line@)),
    {
        if line.unicode_len() == 0 {
            return Err(ParseError::EmptyFnLine);
        }
        if !is_first {
            push_crlf(&mut self.desc);
            self.desc.append(line);
            return Ok(());
        }
        let w1 = match next_word_str(line) {
            Some(w) => w,
            None => {
                return Err(ParseError::MissingFnName);
            },
        };
        let w2 = match next_word_str(w1.1) {
            Some(w) => w,
            None => {
                return Err(ParseError::MissingApiPath);
            },
        };
        let w3 = match next_word_str(w2.1) {
            Some(w) => w,
            None => {
                return Err(ParseError::MissingHttpMethod);
            },
        };
        let rest = trim_start_str(w3.1);
        self.name = String::from_str(w1.0);
        self.path = String::from_str(w2.0);
        self.http_method = String::from_str(w3.0);
        if rest.unicode_len() > 0 {
            self.desc = String::from_str(rest);
        }
        Ok(())
    }

    /// Handles a line of the param segment.
    pub fn parse_param(&mut self, is_first: bool, line: &str) -> (r: Result<(), ParseError>)
        ensures
            step_outcome(old(self)@, final(self)@, r, param_step(old(self)@, is_first, line@)),
    {
        if is_first {
            return Ok(());
        }
        let w1 = match next_word_str(line) {
            Some(w) => w,
            None => {
                return Err(ParseError::MissingParamName);
            },
        };
        let w2 = match next_word_str(w1.1) {
            Some(w) => w,
            None => {
                return Err(ParseError::MissingParamType(String::from_str(w1.0)));
            },
        };
        proof {
            reveal_strlit("required");
            reveal_strlit("optional");
        }
        assert("required"@ =~= required_kw());
        assert("optional"@ =~= optional_kw());
        let flag: (bool, &str) = match next_word_str(w2.1) {
            Some(w) => if str_eq(w.0, "required") {
                (true, w.1)
            } else if str_eq(w.0, "optional") {
                (false, w.1)
            } else {
                (false, w2.1)
            },
            None => (false, w2.1),
        };
        let param = ApiParam {
            name: String::from_str(w1.0),
            param_type: String::from_str(w2.0),
            required: flag.0,
            desc: String::from_str(trim_str(flag.1)),
        };
        let ghost before = self.param_list@;
        self.param_list.push(param);
        assert(self.param_list@.map_values(|p: ApiParam| p@) =~= before.map_values(
            |p: ApiParam| p@,
        ).push(param@));
        Ok(())
    }

    /// Handles a line of the return segment.
    pub fn parse_return(&mut self, is_first: bool, line: &str) -> (r: Result<(), ParseError>)
        ensures
            r is Ok,
            final(self)@ == return_step(old(self)@, is_first, line@),
    {
        if is_first {
            proof {
                reveal_strlit("string");
                reveal_strlit("type");
            }
            assert("string"@ =~= string_kw());
            assert("type"@ =~= type_kw());
            match get_word(line) {
                Some(w) => {
                    if str_eq(w.0, "string") {
                        self.return_desc = String::from_str(w.1);
                        self.return_content_type = ReturnContentType::String;
                    } else if str_eq(w.0, "type") {
                        self.return_desc = String::from_str(w.1);
                        self.return_content_type = ReturnContentType::Type;
                    } else {
                        self.return_desc = String::from_str(line);
                    }
                },
                None => {
                    if str_eq(line, "string") {
                        self.return_desc = String::new();
                        self.return_content_type = ReturnContentType::String;
                    } else if str_eq(line, "type") {
                        self.return_desc = String::new();
                        self.return_content_type = ReturnContentType::Type;
                    } else {
                        self.return_desc = String::from_str(line);
                    }
                },
            }
            return Ok(());
        }
        push_crlf(&mut self.return_content);
        self.return_content.append(line);
        Ok(())
    }
}

/// Splits a line into the segment it opens (if it is a marker line) and the
/// text handed to the segment's handler.
fn classify_line(line: &str) -> (r: (Option<SegmentType>, &str))
    ensures
        r.0 == classify(line@).0,
        r.1@ == classify(line@).1,
{
    let t = trim_start_str(line);
    let n = t.unicode_len();
    let w: (&str, &str) = match get_word(t) {
        Some(p) => p,
        None => (t, t.substring_char(n, n)),
    };
    proof {
        reveal_strlit("module");
        reveal_strlit("fn");
        reveal_strlit("param");
        reveal_strlit("return");
    }
    assert("module"@ =~= module_kw());
    assert("fn"@ =~= fn_kw());
    assert("param"@ =~= param_kw());
    assert("return"@ =~= return_kw());
    if str_eq(w.0, "module") {
        (Some(SegmentType::ModuleName), trim_start_str(w.1))
    } else if str_eq(w.0, "fn") {
        (Some(SegmentType::FnName), trim_start_str(w.1))
    } else if str_eq(trim_str(line), "param") {
        (Some(SegmentType::Param), t.substring_char(n, n))
    } else if str_eq(trim_str(line), "return") {
        (Some(SegmentType::Return), t.substring_char(n, n))
    } else if n > 0 && t.get_char(0) == '+' {
        (None, t.substring_char(1, n))
    } else {
        (None, t)
    }
}

proof fn lemma_failure_sticks(lines: Seq<Seq<char>>, k: int, e: ParseFailure)
    requires
        0 <= k <= lines.len(),
        parse_state(lines.subrange(0, k)) == Err::<ParserState, ParseFailure>(e),
    ensures
        parse_state(lines) == Err::<ParserState, ParseFailure>(e),
    decreases lines.len() - k,
{
    if k == lines.len() {
        assert(lines.subrange(0, k) =~= lines);
    } else {
        assert(lines.drop_last().subrange(0, k) =~= lines.subrange(0, k));
        lemma_failure_sticks(lines.drop_last(), k, e);
    }
}

/// Parses one run of annotation lines into a document. Lines before the
/// first marker are ignored; a second module marker, like any other failing
/// line, aborts the whole record. The line after a return marker is the
/// return segment's first line.
pub fn parse_statement(doc_list: Vec<String>) -> (r: Result<ApiDocument, ParseError>)
    ensures
        parse_result_view(r) == parsed(lines_view(doc_list@)),
{
    let ghost lines = lines_view(doc_list@);
    let mut result = ApiDocument::default();
    let mut segment_type = SegmentType::Idle;
    let mut module_seen = false;
    let mut return_pending = false;
    let mut i: usize = 0;
    assert(lines.subrange(0, 0) =~= Seq::<Seq<char>>::empty());
    while i < doc_list.len()
        invariant
            lines == lines_view(doc_list@),
            i <= doc_list.len(),
            parse_state(lines.subrange(0, i as int)) == Ok::<ParserState, ParseFailure>(
                ParserState {
                    doc: result@,
                    segment: segment_type,
                    module_seen,
                    return_pending,
                },
            ),
        decreases doc_list.len() - i,
    {
        let line = doc_list[i].as_str();
        let c = classify_line(line);
        let is_first = c.0.is_some();
        let is_module = match c.0 {
            Some(SegmentType::ModuleName) => true,
            _ => false,
        };
        proof {
            let pre = lines.subrange(0, i + 1);
            assert(pre.drop_last() =~= lines.subrange(0, i as int));
            assert(pre.last() == doc_list@[i as int]@);
        }
        if is_module && module_seen {
            proof {
                lemma_failure_sticks(lines, i + 1, ParseFailure::MultipleModuleLines);
            }
            return Err(ParseError::MultipleModuleLines);
        }
        let is_return = match c.0 {
            Some(SegmentType::Return) => true,
            _ => false,
        };
        if is_return {
            segment_type = SegmentType::Return;
            return_pending = true;
        } else {
            match c.0 {
                Some(m) => {
                    segment_type = m;
                },
                None => {},
            }
            let first = match segment_type {
                SegmentType::Return => return_pending,
                _ => is_first,
            };
            let step = match segment_type {
                SegmentType::Idle => Ok(()),
                SegmentType::ModuleName => result.parse_module_name(first, c.1),
                SegmentType::FnName => result.parse_fn_line(first, c.1),
                SegmentType::Param => result.parse_param(first, c.1),
                SegmentType::Return => result.parse_return(first, c.1),
            };
            match step {
                Ok(_) => {},
                Err(e) => {
                    proof {
                        lemma_failure_sticks(lines, i + 1, e@);
                    }
                    return Err(e);
                },
            }
            module_seen = module_seen || is_module;
            return_pending = false;
        }
        i = i + 1;
    }
    assert(lines.subrange(0, i as int) =~= lines);
    Ok(result)
}

/// How a return segment's first line (the line after the return marker) is
/// read: `type`, a whitespace character and `x` mark the return content as
/// a type with description `x`. A first line whose leading word `w` is
/// neither `string` nor `type` is kept whole as the description, and the
/// content type stays as it was (`String` on a fresh document).
pub proof fn lemma_return_first_line(d: DocModel, sep: char, x: Seq<char>, w: Seq<char>)
    requires
        is_ascii_space(sep),
    ensures
        return_step(d, true, type_kw() + seq![sep] + x).return_content_type
            == ReturnContentType::Type,
        return_step(d, true, type_kw() + seq![sep] + x).return_desc == x,
        (forall|i: int| 0 <= i < w.len() ==> !is_ascii_space(#[trigger] w[i])) && w != string_kw()
            && w != type_kw() ==> {
            let line = w + seq![sep] + x;
            &&& return_step(d, true, line).return_desc == line
            &&& return_step(d, true, line).return_content_type == d.return_content_type
        },
{
    lemma_split_prefix_word(type_kw(), sep, x);
    if (forall|i: int| 0 <= i < w.len() ==> !is_ascii_space(#[trigger] w[i])) {
        lemma_split_prefix_word(w, sep, x);
    }
}

proof fn lemma_split_prefix_word(w: Seq<char>, sep: char, x: Seq<char>)
    requires
        is_ascii_space(sep),
        forall|i: int| 0 <= i < w.len() ==> !is_ascii_space(#[trigger] w[i]),
    ensures
        split_word(w + seq![sep] + x) == Some((w, x)),
{
    let line = w + seq![sep] + x;
    assert forall|j: int| 0 <= j < w.len() implies !is_ascii_space(#[trigger] line[j]) by {
        assert(line[j] == w[j]);
    }
    assert(line[w.len() as int] == sep);
    lemma_split_word_at(line, w.len() as int);
    assert(line.subrange(0, w.len() as int) =~= w);
    assert(line.subrange(w.len() as int + 1, line.len() as int) =~= x);
}

/// A continuation line made of leading whitespace, a `+` and then `body`
/// hands its segment exactly `body`, leading spaces of `body` included.
pub proof fn lemma_plus_continuation(indent: Seq<char>, body: Seq<char>)
    requires
        is_blank(indent),
    ensures
        classify(indent + seq!['+'] + body) == (None::<SegmentType>, body),
{
    let line = indent + seq!['+'] + body;
    let t = seq!['+'] + body;
    assert forall|j: int| 0 <= j < indent.len() implies is_space(#[trigger] line[j]) by {
        assert(line[j] == indent[j]);
    }
    lemma_trimmed_start_skip(line, indent.len() as int);
    assert(line.subrange(indent.len() as int, line.len() as int) =~= t);
    assert(t[0] == '+');
    assert(!is_space('+'));
    assert(trimmed_start(t) == t);
    lemma_trimmed_end_keeps_first(t);
    assert(trimmed(line) == trimmed_end(t));
    assert(trimmed(line) != param_kw() && trimmed(line) != return_kw()) by {
        assert(param_kw()[0] == 'p');
        assert(return_kw()[0] == 'r');
    }
    let w: (Seq<char>, Seq<char>) = match split_word(t) {
        Some(p) => p,
        None => (t, Seq::empty()),
    };
    assert(!is_ascii_space(t[0]));
    assert(w.0.len() > 0 && w.0[0] == '+');
    assert(w.0 != module_kw() && w.0 != fn_kw() && w.0 != param_kw() && w.0 != return_kw()) by {
        assert(module_kw()[0] == 'm');
        assert(fn_kw()[0] == 'f');
        assert(param_kw()[0] == 'p');
        assert(return_kw()[0] == 'r');
    }
    assert(t.drop_first() =~= body);
}

/// In a parse, the line after a return marker is the return segment's first
/// line: the document after it is the one that reading that line as a first
/// line gives.
pub proof fn lemma_return_marker_then_first_line(
    pre: Seq<Seq<char>>,
    marker: Seq<char>,
    line: Seq<char>,
)
    requires
        parse_state(pre) is Ok,
        classify(marker).0 == Some(SegmentType::Return),
        classify(line).0 is None,
    ensures
        parsed(pre.push(marker).push(line)) == Ok::<DocModel, ParseFailure>(
            return_step(parse_state(pre)->Ok_0.doc, true, classify(line).1),
        ),
{
    let lines = pre.push(marker).push(line);
    assert(lines.drop_last() =~= pre.push(marker));
    assert(pre.push(marker).drop_last() =~= pre);
    let s0 = parse_state(pre)->Ok_0;
    let s1 = ParserState { segment: SegmentType::Return, return_pending: true, ..s0 };
    assert(line_step(s0, marker) == Ok::<ParserState, ParseFailure>(s1));
    assert(parse_state(pre.push(marker)) == Ok::<ParserState, ParseFailure>(s1));
    assert(segment_step(SegmentType::Return, s1.doc, true, classify(line).1) == Ok::<
        DocModel,
        ParseFailure,
    >(return_step(s0.doc, true, classify(line).1)));
    assert(parse_state(lines) == line_step(s1, line));
}

} // verus!
