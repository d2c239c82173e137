//! Parser for the key/value text format maps are written in.
//!
//! The format is a sequence of `"name" "value"` pairs and `"name" { ... }`
//! blocks, with `//` line comments, `/* */` block comments, backslash
//! escapes inside tokens, and `#include` / `#base` directives that splice in
//! another file's pairs. Reading files is a caller's concern: the parser
//! works on characters and asks an [`IncludeResolver`] for included content.

use vstd::prelude::*;

verus! {

/// One named subkey of a list.
#[derive(Debug)]
pub struct KvPair {
    pub name: String,
    pub child: KeyValues,
}

/// A parsed key/value tree: either one string value, or a list of named
/// subkeys in file order (names are stored lowercased).
#[derive(Debug)]
pub enum KeyValues {
    Value { value: String },
    List { subkeys: Vec<KvPair> },
}

/// Why parsing failed.
#[derive(Debug, Clone, PartialEq, Eq)]
pub enum KeyValuesError {
    /// A backslash escape other than `\n`, `\t`, `\\` or `\"`.
    InvalidEscape(char),
    /// The input ended inside a token or inside an unclosed block.
    UnexpectedEnd,
    /// A closing brace where a value was expected; the name before it.
    UnexpectedClosingBrace(String),
    /// A `#`-directive other than `#include` or `#base`.
    UnknownMacro(String),
    /// A file that could not be read or decoded.
    InvalidFile(String),
}

/// Mathematical value of a parsed tree.
pub ghost enum KVS {
    Value { value: Seq<char> },
    List { subkeys: Seq<(Seq<char>, KVS)> },
}

/// The value of a parsed tree.
pub open spec fn kv_view(kv: KeyValues) -> KVS
    decreases kv,
    via kv_view_decreases
{
    match kv {
        KeyValues::Value { value } => KVS::Value { value: value@ },
        KeyValues::List { subkeys } => KVS::List {
            subkeys: Seq::new(
                subkeys@.len(),
                |i: int|
                    if 0 <= i < subkeys@.len() {
                        (subkeys@[i].name@, kv_view(subkeys@[i].child))
                    } else {
                        (Seq::empty(), KVS::Value { value: Seq::empty() })
                    },
            ),
        },
    }
}

/// The values of a list of subkeys.
pub open spec fn kvpairs_view(s: Seq<KvPair>) -> Seq<(Seq<char>, KVS)> {
    Seq::new(s.len(), |i: int| (s[i].name@, kv_view(s[i].child)))
}

/// The subkeys of a list node (empty for a value node).
pub open spec fn spec_subkeys(kv: KeyValues) -> Seq<KvPair> {
    match kv {
        KeyValues::List { subkeys } => subkeys@,
        KeyValues::Value { .. } => Seq::empty(),
    }
}

#[via_fn]
proof fn kv_view_decreases(kv: KeyValues) {
    broadcast use vstd::std_specs::vec::group_vec_axioms;

    match kv {
        KeyValues::Value { value } => {},
        KeyValues::List { subkeys } => {
            assert forall|i: int| 0 <= i < subkeys@.len() implies #[trigger] (decreases_to!(
                kv => subkeys@[i].child)) by {
                assert(decreases_to!(kv => subkeys));
                assert(decreases_to!(subkeys => subkeys@));
                assert(decreases_to!(subkeys@ => subkeys@[i]));
                assert(decreases_to!(subkeys@[i] => subkeys@[i].child));
            }
        },
    }
}

impl View for KeyValues {
    type V = KVS;

    open spec fn view(&self) -> KVS {
        kv_view(*self)
    }
}

/// Relies on `String::push`: appends the given character to the end of the
/// string.
#[verifier::external_body]
fn string_push(s: &mut String, ch: char)
    ensures
        final(s)@ == old(s)@.push(ch),
{
    s.push(ch)
}

/// A character cursor over parser input, standing in for a peekable
/// character iterator: the characters, and the position of the next one.
pub struct CharReader {
    pub chars: Vec<char>,
    pub pos: usize,
}

impl CharReader {
    pub open spec fn wf(self) -> bool {
        self.pos <= self.chars@.len()
    }

    pub fn new(s: &str) -> (r: CharReader)
        ensures
            r.wf(),
            r.chars@ == s@,
            r.pos == 0,
    {
        let n = s.unicode_len();
        let mut chars: Vec<char> = Vec::new();
        let mut i: usize = 0;
        while i < n
            invariant
                n == s@.len(),
                i <= n,
                chars@.len() == i,
                forall|t: int| 0 <= t < i ==> chars@[t] == s@[t],
            decreases n - i,
        {
            let c = s.get_char(i);
            chars.push(c);
            i += 1;
        }
        proof {
            assert(chars@ =~= s@);
        }
        CharReader { chars, pos: 0 }
    }

    /// What has not been read yet, as a string.
    pub fn remaining(&self) -> (r: String)
        requires
            self.wf(),
        ensures
            r@ == self.chars@.skip(self.pos as int),
    {
        let mut out = String::new();
        let mut i: usize = self.pos;
        while i < self.chars.len()
            invariant
                self.pos <= i <= self.chars@.len(),
                out@ == self.chars@.subrange(self.pos as int, i as int),
            decreases self.chars@.len() - i,
        {
            let c = self.chars[i];
            string_push(&mut out, c);
            i += 1;
            proof {
                assert(out@ =~= self.chars@.subrange(self.pos as int, i as int));
            }
        }
        proof {
            assert(self.chars@.subrange(self.pos as int, self.chars@.len() as int)
                =~= self.chars@.skip(self.pos as int));
        }
        out
    }
}

/// The format's whitespace characters.
pub open spec fn is_ws(c: char) -> bool {
    c == ' ' || c == '\r' || c == '\n' || c == '\t'
}

/// The position of the next non-whitespace character at or after `pos`.
pub open spec fn skip_ws_spec(cs: Seq<char>, pos: int) -> int
    decreases cs.len() - pos,
{
    if 0 <= pos < cs.len() && is_ws(cs[pos]) {
        skip_ws_spec(cs, pos + 1)
    } else {
        pos
    }
}

/// Advances the cursor past whitespace.
pub fn skip_whitespace(content: &mut CharReader)
    requires
        old(content).wf(),
    ensures
        final(content).wf(),
        final(content).chars == old(content).chars,
        final(content).pos as int == skip_ws_spec(old(content).chars@, old(content).pos as int),
        final(content).pos >= old(content).pos,
{
    while content.pos < content.chars.len() && (content.chars[content.pos] == ' '
        || content.chars[content.pos] == '\r' || content.chars[content.pos] == '\n'
        || content.chars[content.pos] == '\t')
        invariant
            content.wf(),
            content.chars == old(content).chars,
            content.pos >= old(content).pos,
            skip_ws_spec(content.chars@, content.pos as int) == skip_ws_spec(
                old(content).chars@,
                old(content).pos as int,
            ),
        decreases content.chars@.len() - content.pos,
    {
        content.pos = content.pos + 1;
    }
}

/// One step of reading a token: `acc` is what has been read, `require_quote`
/// whether the token began with a quote. Unquoted tokens end (without
/// consuming) at whitespace, braces, a quote or the input's end; quoted
/// tokens end only at a closing quote, which is consumed. Backslash escapes
/// `\n`, `\t`, `\\` and `\"` are decoded; any other escape is an error.
pub open spec fn read_text_spec(
    cs: Seq<char>,
    pos: int,
    acc: Seq<char>,
    require_quote: bool,
) -> (Result<Seq<char>, KeyValuesError>, int)
    decreases cs.len() - pos,
{
    if pos < 0 || pos >= cs.len() {
        if require_quote {
            (Err(KeyValuesError::UnexpectedEnd), pos)
        } else {
            (Ok(acc), pos)
        }
    } else {
        let c = cs[pos];
        if c == '\\' {
            if pos + 1 >= cs.len() {
                (Err(KeyValuesError::UnexpectedEnd), pos + 1)
            } else {
                let e = cs[pos + 1];
                if e == 'n' {
                    read_text_spec(cs, pos + 2, acc.push('\n'), require_quote)
                } else if e == 't' {
                    read_text_spec(cs, pos + 2, acc.push('\t'), require_quote)
                } else if e == '\\' {
                    read_text_spec(cs, pos + 2, acc.push('\\'), require_quote)
                } else if e == '"' {
                    read_text_spec(cs, pos + 2, acc.push('"'), require_quote)
                } else {
                    (Err(KeyValuesError::InvalidEscape(e)), pos + 2)
                }
            }
        } else if c == '"' {
            if require_quote {
                (Ok(acc), pos + 1)
            } else {
                (Ok(acc), pos)
            }
        } else if is_ws(c) || c == '{' || c == '}' {
            if require_quote {
                read_text_spec(cs, pos + 1, acc.push(c), require_quote)
            } else {
                (Ok(acc), pos)
            }
        } else {
            read_text_spec(cs, pos + 1, acc.push(c), require_quote)
        }
    }
}

/// Reading one whole token from `pos`: an empty input is an error; a leading
/// quote opens a quoted token, any other character starts an unquoted one.
pub open spec fn read_text_full(cs: Seq<char>, pos: int) -> (Result<Seq<char>, KeyValuesError>, int) {
    if pos < 0 || pos >= cs.len() {
        (Err(KeyValuesError::UnexpectedEnd), pos)
    } else if cs[pos] == '"' {
        read_text_spec(cs, pos + 1, Seq::empty(), true)
    } else {
        read_text_spec(cs, pos + 1, seq![cs[pos]], false)
    }
}

/// Reads one token at the cursor, decoding escapes; mirror of
/// `read_text_full`.
pub fn read_text(content: &mut CharReader) -> (r: Result<String, KeyValuesError>)
    requires
        old(content).wf(),
    ensures
        final(content).wf(),
        final(content).chars == old(content).chars,
        final(content).pos as int == read_text_full(old(content).chars@, old(content).pos as int).1,
        old(content).pos < old(content).chars@.len() ==> final(content).pos >= old(content).pos
            + 1,
        match r {
            Ok(s) => read_text_full(old(content).chars@, old(content).pos as int).0 == Ok::<
                Seq<char>,
                KeyValuesError,
            >(s@),
            Err(e) => read_text_full(old(content).chars@, old(content).pos as int).0 == Err::<
                Seq<char>,
                KeyValuesError,
            >(e),
        },
{
    let ghost m = read_text_full(old(content).chars@, old(content).pos as int);
    if content.pos >= content.chars.len() {
        return Err(KeyValuesError::UnexpectedEnd);
    }
    let c0 = content.chars[content.pos];
    content.pos = content.pos + 1;
    let mut require_quote = false;
    let mut text = String::new();
    if c0 == '"' {
        require_quote = true;
    } else {
        string_push(&mut text, c0);
        proof {
            assert(text@ =~= seq![c0]);
        }
    }
    loop
        invariant
            content.wf(),
            content.chars == old(content).chars,
            content.pos > old(content).pos,
            m == read_text_full(old(content).chars@, old(content).pos as int),
            m == read_text_spec(content.chars@, content.pos as int, text@, require_quote),
        decreases content.chars@.len() - content.pos,
    {
        if content.pos >= content.chars.len() {
            if require_quote {
                return Err(KeyValuesError::UnexpectedEnd);
            }
            return Ok(text);
        }
        let c = content.chars[content.pos];
        if c == '\\' {
            content.pos = content.pos + 1;
            if content.pos >= content.chars.len() {
                return Err(KeyValuesError::UnexpectedEnd);
            }
            let e = content.chars[content.pos];
            content.pos = content.pos + 1;
            if e == 'n' {
                string_push(&mut text, '\n');
            } else if e == 't' {
                string_push(&mut text, '\t');
            } else if e == '\\' {
                string_push(&mut text, '\\');
            } else if e == '"' {
                string_push(&mut text, '"');
            } else {
                return Err(KeyValuesError::InvalidEscape(e));
            }
        } else if c == '"' {
            if require_quote {
                content.pos = content.pos + 1;
            }
            return Ok(text);
        } else if c == ' ' || c == '\r' || c == '\n' || c == '\t' || c == '{' || c == '}' {
            if !require_quote {
                return Ok(text);
            }
            string_push(&mut text, c);
            content.pos = content.pos + 1;
        } else {
            string_push(&mut text, c);
            content.pos = content.pos + 1;
        }
    }
}

/// The escaped form of one character, for writing tokens back out.
pub open spec fn escape_char(c: char) -> Seq<char> {
    if c == '\\' {
        seq!['\\', '\\']
    } else if c == '\n' {
        seq!['\\', 'n']
    } else if c == '\t' {
        seq!['\\', 't']
    } else if c == '"' {
        seq!['\\', '"']
    } else {
        seq![c]
    }
}

/// The escaped form of a token from position `i` on.
pub open spec fn escape_spec(s: Seq<char>, i: int) -> Seq<char>
    decreases s.len() - i,
{
    if i < 0 || i >= s.len() {
        Seq::empty()
    } else {
        escape_char(s[i]) + escape_spec(s, i + 1)
    }
}

/// Escapes backslashes, newlines, tabs and quotes in a token, so that
/// reading the written form back yields the token.
pub fn escape_token(token: &str) -> (r: String)
    ensures
        r@ == escape_spec(token@, 0),
{
    let n = token.unicode_len();
    let mut out = String::new();
    let mut i: usize = 0;
    while i < n
        invariant
            n == token@.len(),
            i <= n,
            escape_spec(token@, 0) == out@ + escape_spec(token@, i as int),
        decreases n - i,
    {
        let c = token.get_char(i);
        if c == '\\' {
            string_push(&mut out, '\\');
            string_push(&mut out, '\\');
        } else if c == '\n' {
            string_push(&mut out, '\\');
            string_push(&mut out, 'n');
        } else if c == '\t' {
            string_push(&mut out, '\\');
            string_push(&mut out, 't');
        } else if c == '"' {
            string_push(&mut out, '\\');
            string_push(&mut out, '"');
        } else {
            string_push(&mut out, c);
        }
        i += 1;
        proof {
            assert(escape_spec(token@, 0) =~= out@ + escape_spec(token@, i as int));
        }
    }
    proof {
        assert(escape_spec(token@, 0) =~= out@);
    }
    out
}

/// Whether two strings hold the same characters.
pub fn str_eq(a: &str, b: &str) -> (r: bool)
    ensures
        r == (a@ == b@),
{
    let na = a.unicode_len();
    let nb = b.unicode_len();
    if na != nb {
        proof {
            assert(a@ != b@);
        }
        return false;
    }
    let mut i: usize = 0;
    while i < na
        invariant
            na == a@.len(),
            na == b@.len(),
            i <= na,
            forall|t: int| 0 <= t < i ==> a@[t] == b@[t],
        decreases na - i,
    {
        if a.get_char(i) != b.get_char(i) {
            proof {
                assert(a@[i as int] != b@[i as int]);
            }
            return false;
        }
        i += 1;
    }
    proof {
        assert(a@ =~= b@);
    }
    true
}

/// The lowercase form of a string of characters. The mapping is Unicode case
/// folding as `str::to_lowercase` performs it, which depends on the
/// characters alone; it is not written out here, only named.
pub uninterp spec fn lower_of(s: Seq<char>) -> Seq<char>;

/// Relies on `str::to_lowercase`: the result depends on the characters
/// alone, and an empty string stays empty.
#[verifier::external_body]
pub(crate) fn lowercase(s: &str) -> (r: String)
    ensures
        r@ == lower_of(s@),
        s@.len() == 0 ==> r@.len() == 0,
{
    s.to_lowercase()
}

/// Position of the first subkey with exactly this name.
pub open spec fn kv_first_match(s: Seq<KvPair>, name: Seq<char>, i: int) -> Option<int>
    decreases s.len() - i,
{
    if i < 0 || i >= s.len() {
        None
    } else if s[i].name@ == name {
        Some(i)
    } else {
        kv_first_match(s, name, i + 1)
    }
}

/// Positions of every subkey with exactly this name, in order.
pub open spec fn kv_all_matches(s: Seq<KvPair>, name: Seq<char>, i: int) -> Seq<int>
    decreases s.len() - i,
{
    if i < 0 || i >= s.len() {
        Seq::empty()
    } else if s[i].name@ == name {
        seq![i] + kv_all_matches(s, name, i + 1)
    } else {
        kv_all_matches(s, name, i + 1)
    }
}

impl KeyValues {
    /// The first subkey with the given name, if any. Only a list has
    /// subkeys; names are stored lowercase, so the name to look for should
    /// be lowercase too.
    pub fn get(&self, name: &str) -> (r: Option<&KeyValues>)
        ensures
            self is Value ==> r is None,
            self is List ==> match kv_first_match(spec_subkeys(*self), name@, 0) {
                Some(i) => r matches Some(v) && *v == spec_subkeys(*self)[i].child,
                None => r is None,
            },
    {
        match self {
            KeyValues::Value { .. } => None,
            KeyValues::List { subkeys } => {
                let mut i: usize = 0;
                while i < subkeys.len()
                    invariant
                        *self is List,
                        spec_subkeys(*self) == subkeys@,
                        i <= subkeys@.len(),
                        kv_first_match(subkeys@, name@, 0) == kv_first_match(
                            subkeys@,
                            name@,
                            i as int,
                        ),
                    decreases subkeys@.len() - i,
                {
                    if str_eq(subkeys[i].name.as_str(), name) {
                        return Some(&subkeys[i].child);
                    }
                    i += 1;
                }
                None
            },
        }
    }

    /// Every subkey with the given name, in file order.
    pub fn get_all<'a>(&'a self, name: &str) -> (r: Vec<&'a KeyValues>)
        ensures
            self is Value ==> r@.len() == 0,
            self is List ==> {
                let idx = kv_all_matches(spec_subkeys(*self), name@, 0);
                &&& r@.len() == idx.len()
                &&& forall|j: int|
                    0 <= j < idx.len() ==> 0 <= idx[j] < spec_subkeys(*self).len() && *(
                    #[trigger] r@[j]) == spec_subkeys(*self)[idx[j]].child
            },
    {
        match self {
            KeyValues::Value { .. } => Vec::new(),
            KeyValues::List { subkeys } => {
                let mut out: Vec<&KeyValues> = Vec::new();
                let ghost mut done: Seq<int> = Seq::empty();
                let mut i: usize = 0;
                proof {
                    assert(kv_all_matches(subkeys@, name@, 0) =~= done + kv_all_matches(
                        subkeys@,
                        name@,
                        0,
                    ));
                }
                while i < subkeys.len()
                    invariant
                        *self is List,
                        spec_subkeys(*self) == subkeys@,
                        i <= subkeys@.len(),
                        kv_all_matches(subkeys@, name@, 0) == done + kv_all_matches(
                            subkeys@,
                            name@,
                            i as int,
                        ),
                        out@.len() == done.len(),
                        forall|j: int|
                            0 <= j < done.len() ==> 0 <= done[j] < subkeys@.len() && *(
                            #[trigger] out@[j]) == subkeys@[done[j]].child,
                    decreases subkeys@.len() - i,
                {
                    if str_eq(subkeys[i].name.as_str(), name) {
                        out.push(&subkeys[i].child);
                        proof {
                            done = done.push(i as int);
                            assert(kv_all_matches(subkeys@, name@, i as int) == seq![i as int]
                                + kv_all_matches(subkeys@, name@, i as int + 1));
                            assert(kv_all_matches(subkeys@, name@, 0) =~= done + kv_all_matches(
                                subkeys@,
                                name@,
                                i as int + 1,
                            ));
                        }
                    }
                    i += 1;
                }
                proof {
                    assert(kv_all_matches(subkeys@, name@, 0) =~= done);
                }
                out
            },
        }
    }

    /// Every name/child pair of a list, in file order.
    pub fn get_all_kv_pairs<'a>(&'a self) -> (r: Vec<(&'a String, &'a KeyValues)>)
        ensures
            self is Value ==> r@.len() == 0,
            self is List ==> {
                &&& r@.len() == spec_subkeys(*self).len()
                &&& forall|j: int|
                    0 <= j < r@.len() ==> *((#[trigger] r@[j]).0) == spec_subkeys(*self)[j].name
                        && *(r@[j].1) == spec_subkeys(*self)[j].child
            },
    {
        match self {
            KeyValues::Value { .. } => Vec::new(),
            KeyValues::List { subkeys } => {
                let mut out: Vec<(&String, &KeyValues)> = Vec::new();
                let mut i: usize = 0;
                while i < subkeys.len()
                    invariant
                        i <= subkeys@.len(),
                        out@.len() == i,
                        forall|j: int|
                            0 <= j < i ==> *((#[trigger] out@[j]).0) == subkeys@[j].name && *(
                            out@[j].1) == subkeys@[j].child,
                    decreases subkeys@.len() - i,
                {
                    out.push((&subkeys[i].name, &subkeys[i].child));
                    i += 1;
                }
                out
            },
        }
    }

    /// The string of a value node; a list has none.
    pub fn get_value(&self) -> (r: Option<&String>)
        ensures
            match self {
                KeyValues::Value { value } => r matches Some(v) && *v == value,
                KeyValues::List { .. } => r is None,
            },
    {
        match self {
            KeyValues::Value { value } => Some(value),
            KeyValues::List { .. } => None,
        }
    }
}

/// Supplies the parsed content of an included file to the parser. The
/// format's `#include` and `#base` directives name other files; what they
/// hold is outside the parser's control, so nothing is promised of it and
/// the parse result is pinned down only for input without directives.
pub trait IncludeResolver {
    fn resolve(&mut self, name: String) -> Result<KeyValues, KeyValuesError>;
}

/// A resolver over an in-memory table of already-parsed files. Each entry
/// is handed out once, by moving it to the caller; a name with no entry
/// fails as an invalid file.
pub struct MapResolver {
    pub entries: Vec<KvPair>,
}

impl IncludeResolver for MapResolver {
    fn resolve(&mut self, name: String) -> (r: Result<KeyValues, KeyValuesError>) {
        let mut i: usize = 0;
        while i < self.entries.len()
            invariant
                i <= self.entries@.len(),
            decreases self.entries@.len() - i,
        {
            if str_eq(self.entries[i].name.as_str(), name.as_str()) {
                let pair = self.entries.remove(i);
                return Ok(pair.child);
            }
            i += 1;
        }
        Err(KeyValuesError::InvalidFile(name))
    }
}

/// Spec-level mirror of a parse error. String payloads are carried as
/// character sequences.
pub ghost enum KvErrS {
    InvalidEscape { c: char },
    UnexpectedEnd,
    UnexpectedClosingBrace { name: Seq<char> },
    UnknownMacro { name: Seq<char> },
    InvalidFile { name: Seq<char> },
}

/// The value of a parse error.
pub open spec fn err_view(e: KeyValuesError) -> KvErrS {
    match e {
        KeyValuesError::InvalidEscape(c) => KvErrS::InvalidEscape { c },
        KeyValuesError::UnexpectedEnd => KvErrS::UnexpectedEnd,
        KeyValuesError::UnexpectedClosingBrace(s) => KvErrS::UnexpectedClosingBrace { name: s@ },
        KeyValuesError::UnknownMacro(s) => KvErrS::UnknownMacro { name: s@ },
        KeyValuesError::InvalidFile(s) => KvErrS::InvalidFile { name: s@ },
    }
}

/// What a parse run comes to: a finished tree, a failure, or a point where
/// an include directive hands control to the resolver (after which nothing
/// further is promised).
pub ghost enum ParseOutcome {
    Done { v: KVS },
    Fail { e: KvErrS },
    NeedsInclude,
}

/// The position just after the close of a block comment opened before `q`,
/// scanning the character pairs as the parser does.
pub open spec fn comment_end(cs: Seq<char>, q: int) -> Option<int>
    decreases cs.len() - q,
{
    if q >= cs.len() {
        None
    } else if cs[q - 1] == '*' && cs[q] == '/' {
        Some(q)
    } else {
        comment_end(cs, q + 1)
    }
}

/// The position of the next newline at or after `q`.
pub open spec fn line_end(cs: Seq<char>, q: int) -> Option<int>
    decreases cs.len() - q,
{
    if q >= cs.len() {
        None
    } else if cs[q] == '\n' {
        Some(q)
    } else {
        line_end(cs, q + 1)
    }
}

/// End of input: the collected pairs become the root list, unless a block
/// is still open.
pub open spec fn parse_finish(
    current: Seq<(Seq<char>, KVS)>,
    stack: Seq<(Seq<char>, Seq<(Seq<char>, KVS)>)>,
) -> ParseOutcome {
    if stack.len() == 0 {
        ParseOutcome::Done { v: KVS::List { subkeys: current } }
    } else {
        ParseOutcome::Fail { e: KvErrS::UnexpectedEnd }
    }
}

/// The parser's main loop as a function of the input: reads names and
/// values, opens a block at `{` (pushing the collected pairs), closes one at
/// `}` (wrapping them into a list under the block's lowercased name), skips
/// comments, and stops at an include directive.
pub open spec fn parse_loop_spec(
    cs: Seq<char>,
    pos: int,
    current: Seq<(Seq<char>, KVS)>,
    stack: Seq<(Seq<char>, Seq<(Seq<char>, KVS)>)>,
) -> ParseOutcome
    decreases cs.len() - pos,
    via parse_loop_decreases
{
    let p1 = skip_ws_spec(cs, pos);
    if p1 >= cs.len() {
        parse_finish(current, stack)
    } else if cs[p1] == '}' {
        if stack.len() == 0 {
            ParseOutcome::Fail { e: KvErrS::UnexpectedEnd }
        } else {
            let top = stack.last();
            let part = KVS::List { subkeys: current };
            parse_loop_spec(
                cs,
                p1 + 1,
                top.1.push((lower_of(top.0), part)),
                stack.drop_last(),
            )
        }
    } else if cs[p1] == '/' {
        if p1 + 1 < cs.len() && cs[p1 + 1] == '*' {
            match comment_end(cs, p1 + 2) {
                None => parse_finish(current, stack),
                Some(q) => parse_loop_spec(cs, q + 1, current, stack),
            }
        } else {
            match line_end(cs, p1 + 1) {
                None => parse_finish(current, stack),
                Some(q) => parse_loop_spec(cs, q + 1, current, stack),
            }
        }
    } else {
        let nr = read_text_full(cs, p1);
        match nr.0 {
            Err(e) => ParseOutcome::Fail { e: err_view(e) },
            Ok(name) => {
                let p3 = skip_ws_spec(cs, nr.1);
                if p3 >= cs.len() {
                    ParseOutcome::Fail { e: KvErrS::UnexpectedEnd }
                } else if cs[p3] == '{' {
                    parse_loop_spec(cs, p3 + 1, Seq::empty(), stack.push((lower_of(name), current)))
                } else if cs[p3] == '}' {
                    ParseOutcome::Fail { e: KvErrS::UnexpectedClosingBrace { name } }
                } else {
                    let vr = read_text_full(cs, p3);
                    match vr.0 {
                        Err(e) => ParseOutcome::Fail { e: err_view(e) },
                        Ok(value) => if name.len() > 0 && name[0] == '#' {
                            if name == "#include"@ || name == "#base"@ {
                                ParseOutcome::NeedsInclude
                            } else {
                                ParseOutcome::Fail { e: KvErrS::UnknownMacro { name } }
                            }
                        } else {
                            parse_loop_spec(
                                cs,
                                vr.1,
                                current.push((lower_of(name), KVS::Value { value })),
                                stack,
                            )
                        },
                    }
                }
            },
        }
    }
}

/// Skipping whitespace never moves backward nor past the end.
proof fn lemma_skip_ws_ge(cs: Seq<char>, pos: int)
    ensures
        skip_ws_spec(cs, pos) >= pos,
        pos <= cs.len() ==> skip_ws_spec(cs, pos) <= cs.len(),
    decreases cs.len() - pos,
{
    if 0 <= pos < cs.len() && is_ws(cs[pos]) {
        lemma_skip_ws_ge(cs, pos + 1);
    }
}

/// Reading a token never moves backward nor past the end.
proof fn lemma_read_text_ge(cs: Seq<char>, pos: int, acc: Seq<char>, rq: bool)
    ensures
        read_text_spec(cs, pos, acc, rq).1 >= pos,
        pos <= cs.len() ==> read_text_spec(cs, pos, acc, rq).1 <= cs.len(),
    decreases cs.len() - pos,
{
    if 0 <= pos < cs.len() {
        let c = cs[pos];
        if c == '\\' {
            if pos + 1 < cs.len() {
                let e = cs[pos + 1];
                if e == 'n' || e == 't' || e == '\\' || e == '"' {
                    lemma_read_text_ge(
                        cs,
                        pos + 2,
                        acc.push(if e == 'n' {
                            '\n'
                        } else if e == 't' {
                            '\t'
                        } else if e == '\\' {
                            '\\'
                        } else {
                            '"'
                        }),
                        rq,
                    );
                }
            }
        } else if c == '"' {
        } else if is_ws(c) || c == '{' || c == '}' {
            if rq {
                lemma_read_text_ge(cs, pos + 1, acc.push(c), rq);
            }
        } else {
            lemma_read_text_ge(cs, pos + 1, acc.push(c), rq);
        }
    }
}

/// Reading a whole token consumes at least one character.
proof fn lemma_read_text_full_gt(cs: Seq<char>, pos: int)
    requires
        0 <= pos < cs.len(),
    ensures
        pos + 1 <= read_text_full(cs, pos).1 <= cs.len(),
{
    if cs[pos] == '"' {
        lemma_read_text_ge(cs, pos + 1, Seq::empty(), true);
    } else {
        lemma_read_text_ge(cs, pos + 1, seq![cs[pos]], false);
    }
}

/// A block comment's end lies at or after the scan's start, inside the input.
proof fn lemma_comment_end_ge(cs: Seq<char>, q: int)
    ensures
        comment_end(cs, q) matches Some(e) ==> q <= e < cs.len(),
    decreases cs.len() - q,
{
    if q < cs.len() {
        if !(cs[q - 1] == '*' && cs[q] == '/') {
            lemma_comment_end_ge(cs, q + 1);
        }
    }
}

/// A line comment's end lies at or after the scan's start, inside the input.
proof fn lemma_line_end_ge(cs: Seq<char>, q: int)
    ensures
        line_end(cs, q) matches Some(e) ==> q <= e < cs.len(),
    decreases cs.len() - q,
{
    if q < cs.len() {
        if cs[q] != '\n' {
            lemma_line_end_ge(cs, q + 1);
        }
    }
}

#[via_fn]
proof fn parse_loop_decreases(
    cs: Seq<char>,
    pos: int,
    current: Seq<(Seq<char>, KVS)>,
    stack: Seq<(Seq<char>, Seq<(Seq<char>, KVS)>)>,
) {
    lemma_skip_ws_ge(cs, pos);
    let p1 = skip_ws_spec(cs, pos);
    lemma_comment_end_ge(cs, p1 + 2);
    lemma_line_end_ge(cs, p1 + 1);
    if 0 <= p1 < cs.len() {
        if !(cs[p1] == '}' || cs[p1] == '/') {
            lemma_read_text_full_gt(cs, p1);
            let nr = read_text_full(cs, p1);
            lemma_skip_ws_ge(cs, nr.1);
            let p3 = skip_ws_spec(cs, nr.1);
            if p3 < cs.len() {
                lemma_read_text_full_gt(cs, p3);
            }
        }
    }
}

impl KeyValues {
    /// Parses content that was located through a search path. Reading the
    /// named file out of a directory or archive is the caller's concern;
    /// the resolver serves any `#include` / `#base` directive the content
    /// holds, typically against the same search path. The result is exactly
    /// `parse_internal` on the content.
    pub fn parse_from_searchpath<R: IncludeResolver>(
        content: &str,
        file_open_handler: &mut R,
    ) -> (r: Result<KeyValues, KeyValuesError>)
        ensures
            ({
                let m = parse_loop_spec(content@, 0, Seq::empty(), Seq::empty());
                &&& (m matches ParseOutcome::Done { v } ==> (r matches Ok(kv) && kv@ == v))
                &&& (m matches ParseOutcome::Fail { e } ==> (r matches Err(er) && err_view(er)
                    == e))
                &&& (r matches Ok(kv) ==> kv is List)
            }),
    {
        let mut reader = CharReader::new(content);
        KeyValues::parse_internal(&mut reader, file_open_handler)
    }
}

/// The value of the parser's save stack.
pub open spec fn stack_view(s: Seq<(String, Vec<KvPair>)>) -> Seq<(Seq<char>, Seq<(Seq<char>, KVS)>)> {
    Seq::new(s.len(), |i: int| (s[i].0@, kvpairs_view(s[i].1@)))
}

/// Pushing a pair commutes with taking list values.
proof fn lemma_kvpairs_view_push(s: Seq<KvPair>, p: KvPair)
    ensures
        kvpairs_view(s.push(p)) =~= kvpairs_view(s).push((p.name@, kv_view(p.child))),
{
}

impl KeyValues {
    /// Parses key/value text at the cursor into a tree, resolving
    /// `#include` / `#base` directives through `file_open_handler`. On input
    /// that holds no such directive the result is exactly
    /// `parse_loop_spec`; with directives, the spliced content comes from
    /// the resolver and only the shape of the result (a list) is promised.
    pub fn parse_internal<R: IncludeResolver>(
        content: &mut CharReader,
        file_open_handler: &mut R,
    ) -> (r: Result<KeyValues, KeyValuesError>)
        requires
            old(content).wf(),
        ensures
            ({
                let m = parse_loop_spec(
                    old(content).chars@,
                    old(content).pos as int,
                    Seq::empty(),
                    Seq::empty(),
                );
                &&& (m matches ParseOutcome::Done { v } ==> (r matches Ok(kv) && kv@ == v))
                &&& (m matches ParseOutcome::Fail { e } ==> (r matches Err(er) && err_view(er)
                    == e))
                &&& (r matches Ok(kv) ==> kv is List)
            }),
    {
        let ghost m = parse_loop_spec(
            old(content).chars@,
            old(content).pos as int,
            Seq::empty(),
            Seq::empty(),
        );
        let mut current: Vec<KvPair> = Vec::new();
        let mut stack: Vec<(String, Vec<KvPair>)> = Vec::new();
        proof {
            assert(kvpairs_view(current@) =~= Seq::<(Seq<char>, KVS)>::empty());
            assert(stack_view(stack@) =~= Seq::<(Seq<char>, Seq<(Seq<char>, KVS)>)>::empty());
        }
        loop
            invariant
                content.wf(),
                content.chars == old(content).chars,
                m == parse_loop_spec(
                    old(content).chars@,
                    old(content).pos as int,
                    Seq::empty(),
                    Seq::empty(),
                ),
                m is NeedsInclude || m == parse_loop_spec(
                    content.chars@,
                    content.pos as int,
                    kvpairs_view(current@),
                    stack_view(stack@),
                ),
            decreases content.chars@.len() - content.pos,
        {
            let ghost pos0 = content.pos as int;
            let ghost cur0 = kvpairs_view(current@);
            let ghost stk0 = stack_view(stack@);
            skip_whitespace(content);
            if content.pos >= content.chars.len() {
                if stack.len() > 0 {
                    return Err(KeyValuesError::UnexpectedEnd);
                }
                let result = KeyValues::List { subkeys: current };
                proof {
                    assert(kv_view(result) matches KVS::List { subkeys: sv } && sv =~~= cur0);
                }
                return Ok(result);
            }
            let c = content.chars[content.pos];
            if c == '}' {
                match stack.pop() {
                    None => {
                        return Err(KeyValuesError::UnexpectedEnd);
                    },
                    Some(top) => {
                        let ghost top_name_v = top.0@;
                        let ghost top_list_v = kvpairs_view(top.1@);
                        proof {
                            assert(stk0[stk0.len() - 1] == (top_name_v, top_list_v));
                        }
                        let (name, new_current) = top;
                        let mut part_children = new_current;
                        core::mem::swap(&mut current, &mut part_children);
                        // current now holds the outer list; part_children the block's pairs
                        let part = KeyValues::List { subkeys: part_children };
                        let lname = lowercase(name.as_str());
                        current.push(KvPair { name: lname, child: part });
                        content.pos = content.pos + 1;
                        proof {
                            assert(kv_view(current@.last().child) matches KVS::List { subkeys: sv }
                                && sv =~~= cur0);
                            lemma_kvpairs_view_push(
                                current@.drop_last(),
                                current@.last(),
                            );
                            assert(current@.drop_last().push(current@.last()) =~= current@);
                            assert(stack_view(stack@) =~~= stk0.drop_last());
                            assert(kvpairs_view(current@.drop_last()) =~~= top_list_v);
                            assert(kvpairs_view(current@) =~~= top_list_v.push(
                                (lower_of(top_name_v), KVS::List { subkeys: cur0 }),
                            ));
                            assert(stk0.last() == (top_name_v, top_list_v));
                            assert(m is NeedsInclude || m == parse_loop_spec(
                                content.chars@,
                                content.pos as int,
                                kvpairs_view(current@),
                                stack_view(stack@),
                            ));
                        }
                    },
                }
            } else if c == '/' {
                content.pos = content.pos + 1;
                if content.pos < content.chars.len() && content.chars[content.pos] == '*' {
                    // block comment: scan for the closing pair
                    let ghost q0 = content.pos as int + 1;
                    content.pos = content.pos + 1;
                    while content.pos < content.chars.len() && !(content.chars[content.pos - 1]
                        == '*' && content.chars[content.pos] == '/')
                        invariant
                            content.wf(),
                            content.chars == old(content).chars,
                            q0 >= 2,
                            q0 == skip_ws_spec(content.chars@, pos0) + 2,
                            content.pos as int >= q0,
                            comment_end(content.chars@, q0) == comment_end(
                                content.chars@,
                                content.pos as int,
                            ),
                        decreases content.chars@.len() - content.pos,
                    {
                        content.pos = content.pos + 1;
                    }
                    if content.pos >= content.chars.len() {
                        // unterminated comment: treated as end of input
                        if stack.len() > 0 {
                            return Err(KeyValuesError::UnexpectedEnd);
                        }
                        let result = KeyValues::List { subkeys: current };
                        proof {
                            assert(kv_view(result) matches KVS::List { subkeys: sv } && sv
                                =~~= cur0);
                        }
                        return Ok(result);
                    }
                    content.pos = content.pos + 1;
                    proof {
                        assert(m is NeedsInclude || m == parse_loop_spec(
                                content.chars@,
                                content.pos as int,
                                kvpairs_view(current@),
                                stack_view(stack@),
                            ));
                    }
                } else {
                    // line comment: skip to the end of the line
                    while content.pos < content.chars.len() && content.chars[content.pos] != '\n'
                        invariant
                            content.wf(),
                            content.chars == old(content).chars,
                            line_end(content.chars@, skip_ws_spec(content.chars@, pos0) + 1)
                                == line_end(content.chars@, content.pos as int),
                            content.pos as int >= skip_ws_spec(content.chars@, pos0) + 1,
                        decreases content.chars@.len() - content.pos,
                    {
                        content.pos = content.pos + 1;
                    }
                    if content.pos >= content.chars.len() {
                        if stack.len() > 0 {
                            return Err(KeyValuesError::UnexpectedEnd);
                        }
                        let result = KeyValues::List { subkeys: current };
                        proof {
                            assert(kv_view(result) matches KVS::List { subkeys: sv } && sv
                                =~~= cur0);
                        }
                        return Ok(result);
                    }
                    content.pos = content.pos + 1;
                    proof {
                        assert(m is NeedsInclude || m == parse_loop_spec(
                                content.chars@,
                                content.pos as int,
                                kvpairs_view(current@),
                                stack_view(stack@),
                            ));
                    }
                }
            } else {
                let name = match read_text(content) {
                    Ok(n) => n,
                    Err(e) => {
                        return Err(e);
                    },
                };
                skip_whitespace(content);
                if content.pos >= content.chars.len() {
                    return Err(KeyValuesError::UnexpectedEnd);
                }
                let c2 = content.chars[content.pos];
                if c2 == '{' {
                    content.pos = content.pos + 1;
                    let lname = lowercase(name.as_str());
                    let mut fresh: Vec<KvPair> = Vec::new();
                    core::mem::swap(&mut current, &mut fresh);
                    stack.push((lname, fresh));
                    proof {
                        assert(kvpairs_view(current@) =~= Seq::<(Seq<char>, KVS)>::empty());
                        assert(stack_view(stack@) =~~= stk0.push((lower_of(name@), cur0)));
                        assert(m is NeedsInclude || m == parse_loop_spec(
                                content.chars@,
                                content.pos as int,
                                kvpairs_view(current@),
                                stack_view(stack@),
                            ));
                    }
                } else if c2 == '}' {
                    return Err(KeyValuesError::UnexpectedClosingBrace(name));
                } else {
                    let value = match read_text(content) {
                        Ok(v) => v,
                        Err(e) => {
                            return Err(e);
                        },
                    };
                    let is_macro = name.as_str().unicode_len() > 0 && name.as_str().get_char(0)
                        == '#';
                    if is_macro {
                        if str_eq(name.as_str(), "#include") || str_eq(name.as_str(), "#base") {
                            let include_data = file_open_handler.resolve(value);
                            match include_data {
                                Ok(KeyValues::List { mut subkeys }) => {
                                    current.append(&mut subkeys);
                                },
                                Ok(KeyValues::Value { .. }) => {},
                                Err(e) => {
                                    return Err(e);
                                },
                            }
                            proof {
                                assert(m is NeedsInclude);
                            }
                        } else {
                            return Err(KeyValuesError::UnknownMacro(name));
                        }
                    } else {
                        let lname = lowercase(name.as_str());
                        current.push(KvPair { name: lname, child: KeyValues::Value { value } });
                        proof {
                            lemma_kvpairs_view_push(current@.drop_last(), current@.last());
                            assert(current@.drop_last().push(current@.last()) =~= current@);
                            let cs = content.chars@;
                            let p1x = skip_ws_spec(cs, pos0);
                            let nrx = read_text_full(cs, p1x);
                            assert(nrx.0 == Ok::<Seq<char>, KeyValuesError>(name@));
                            let p3x = skip_ws_spec(cs, nrx.1);
                            assert(cs[p3x] != '{' && cs[p3x] != '}');
                            let vrx = read_text_full(cs, p3x);
                            assert(vrx.0 == Ok::<Seq<char>, KeyValuesError>(value@));
                            assert(content.pos as int == vrx.1);
                            assert(!(name@.len() > 0 && name@[0] == '#'));
                            assert(kvpairs_view(current@) =~~= cur0.push(
                                (lower_of(name@), KVS::Value { value: value@ }),
                            ));
                            assert(m is NeedsInclude || m == parse_loop_spec(
                                content.chars@,
                                content.pos as int,
                                kvpairs_view(current@),
                                stack_view(stack@),
                            ));
                        }
                    }
                }
            }
        }
    }
}

} // verus!
