//! Parser for the type-lookup toolchain's debug dump.
//!
//! The external toolchain prints a typed intermediate representation as
//! indented text. This module turns that text into a [`Thir`] tree and
//! collects the pattern bindings — each bound identifier with its type as
//! text — that the loop compiler needs. Running the toolchain, and the
//! disk cache keyed by exact snippet text, live outside the library; this
//! code only consumes the dump. A dump this parser cannot read is a fatal
//! external-tool error for the caller.

use vstd::prelude::*;
use crate::strutil::chars_to_string;
use crate::strutil::str_eq;
use vstd::string::StrSliceExecFns;
use vstd::string::StringExecFns;

verus! {

/// A line/column pair of the dump's span notation.
#[derive(Debug, PartialEq, Eq, Structural)]
pub struct Location {
    pub line: u32,
    pub column: u32,
}

impl Location {
    /// Two consecutive numbers of a position list make one location.
    pub fn from_iterator(values: &Vec<u32>, at: usize) -> (r: Option<Location>)
        ensures
            at + 1 < values@.len() ==> (r matches Some(loc) && loc.line == values@[at as int]
                && loc.column == values@[at + 1]),
            at + 1 >= values@.len() ==> r is None,
    {
        if at < values.len() && at + 1 < values.len() {
            Some(Location { line: values[at], column: values[at + 1] })
        } else {
            None
        }
    }
}

/// A source span of the dump: `file:line:col:line:col(#scope)`.
#[derive(Debug)]
pub struct Span {
    pub file: String,
    pub start: Location,
    pub end: Location,
}

impl Span {
    /// Splits the dump's span notation on colons: the text before the
    /// first colon is the file, the next four numbers are the start and
    /// end locations, and a number that does not parse counts as zero.
    pub fn from_text(value: &str) -> (r: Span)
        ensures
            forall|k: int|
                (0 <= k < value@.len() && #[trigger] value@[k] == ':' && (forall|m: int|
                    0 <= m < k ==> value@[m] != ':')) ==> r.file@ == value@.take(k),
            (forall|m: int| 0 <= m < value@.len() ==> value@[m] != ':') ==> (r.file@.len() == 0
                && r.start.line == 0 && r.start.column == 0 && r.end.line == 0 && r.end.column
                == 0),
    {
        let chars = crate::strutil::chars_of(value);
        let mut file = String::new();
        let mut positions: Vec<u32> = Vec::new();
        let mut buf: Vec<char> = Vec::new();
        let mut file_parsed = false;
        let mut i: usize = 0;
        while i < chars.len()
            invariant_except_break
                i <= chars@.len(),
                chars@ == value@,
                !file_parsed ==> file@.len() == 0 && buf@ == chars@.take(i as int) && (forall|
                    m: int,
                |
                    0 <= m < i ==> chars@[m] != ':'),
                forall|k: int|
                    (0 <= k < chars@.len() && #[trigger] chars@[k] == ':' && (forall|m: int|
                        0 <= m < k ==> chars@[m] != ':')) ==> ((i <= k && !file_parsed) || (
                    file_parsed && file@ == chars@.take(k))),
                (forall|m: int| 0 <= m < chars@.len() ==> chars@[m] != ':') ==> (!file_parsed
                    && positions@.len() == 0),
            ensures
                chars@ == value@,
                forall|k: int|
                    (0 <= k < chars@.len() && #[trigger] chars@[k] == ':' && (forall|m: int|
                        0 <= m < k ==> chars@[m] != ':')) ==> file@ == chars@.take(k),
                (forall|m: int| 0 <= m < chars@.len() ==> chars@[m] != ':') ==> (file@.len() == 0
                    && positions@.len() == 0),
            decreases chars@.len() - i,
        {
            let c = chars[i];
            if c == ':' {
                if file_parsed {
                    positions.push(parse_u32_or_zero(&buf));
                } else {
                    file = chars_to_string(&buf);
                    file_parsed = true;
                }
                buf = Vec::new();
            } else if c == '(' && file_parsed {
                proof {
                    assert forall|k: int|
                        (0 <= k < chars@.len() && #[trigger] chars@[k] == ':' && (forall|m: int|
                            0 <= m < k ==> chars@[m] != ':')) implies file@ == chars@.take(
                        k,
                    ) by {}
                }
                break;
            } else {
                buf.push(c);
                proof {
                    if !file_parsed {
                        assert(buf@ =~= chars@.take(i + 1));
                    }
                }
            }
            i = i + 1;
        }
        positions.push(parse_u32_or_zero(&buf));
        let start = match Location::from_iterator(&positions, 0) {
            Some(l) => l,
            None => Location { line: 0, column: 0 },
        };
        let end = match Location::from_iterator(&positions, 2) {
            Some(l) => l,
            None => Location { line: 0, column: 0 },
        };
        Span { file, start, end }
    }
}

/// Digits to a number; anything else, or overflow, counts as zero, as the
/// dump's span fields are best-effort.
fn parse_u32_or_zero(digits: &Vec<char>) -> u32 {
    let mut value: u32 = 0;
    let mut i: usize = 0;
    if digits.len() == 0 {
        return 0;
    }
    while i < digits.len()
        invariant
            i <= digits@.len(),
        decreases digits@.len() - i,
    {
        let c = digits[i];
        if c < '0' || c > '9' {
            return 0;
        }
        let d = (c as u32) - ('0' as u32);
        if value > (u32::MAX - d) / 10 {
            return 0;
        }
        value = value * 10 + d;
        i = i + 1;
    }
    value
}

/// One pattern binding recovered from the dump: an identifier and its
/// type as text.
#[derive(Debug)]
pub struct PatBinding {
    pub name: String,
    pub ty: String,
}

/// The dump's tree shape: lists, named field groups, named lists and
/// plain text leaves.
#[derive(Debug)]
pub enum Thir {
    List(Vec<Thir>),
    Fields((String, Vec<(String, Thir)>)),
    NamedList((String, Vec<Thir>)),
    Text(String),
}

/// The text stored under a key, the last entry winning, as repeated keys
/// overwrite earlier ones.
pub open spec fn map_get_spec(fields: Seq<(String, Thir)>, key: Seq<char>) -> Option<Thir>
    decreases fields,
{
    if fields.len() == 0 {
        None
    } else {
        let rest = map_get_spec(fields.skip(1), key);
        if rest is Some {
            rest
        } else if fields[0].0@ == key {
            Some(fields[0].1)
        } else {
            None
        }
    }
}

pub open spec fn map_get_text_spec(fields: Seq<(String, Thir)>, key: Seq<char>) -> Option<
    Seq<char>,
> {
    match map_get_spec(fields, key) {
        Some(t) => match t {
            Thir::Text(v) => Some(v@),
            _ => None,
        },
        _ => None,
    }
}

/// The pattern binding one dump node carries: a `Pat` field group whose
/// kind is a `Binding` group, yielding the binding's name and type texts,
/// each taken from the binding's own fields first and the pattern's
/// otherwise.
pub open spec fn binding_of(t: Thir) -> Option<(Seq<char>, Seq<char>)> {
    match t {
        Thir::Fields((name, fields)) => {
            if name@ == "Pat"@ {
                match map_get_spec(fields@, "kind"@) {
                    Some(kind) => match kind {
                        Thir::Fields((kname, bfields)) => {
                            if kname@ == "Binding"@ {
                                let n = if map_get_text_spec(bfields@, "name"@) is Some {
                                    map_get_text_spec(bfields@, "name"@)
                                } else {
                                    map_get_text_spec(fields@, "name"@)
                                };
                                let ty = if map_get_text_spec(bfields@, "ty"@) is Some {
                                    map_get_text_spec(bfields@, "ty"@)
                                } else {
                                    map_get_text_spec(fields@, "ty"@)
                                };
                                match (n, ty) {
                                    (Some(nv), Some(tv)) => Some((nv, tv)),
                                    _ => None,
                                }
                            } else {
                                None
                            }
                        },
                        _ => None,
                    },
                    None => None,
                }
            } else {
                None
            }
        },
        _ => None,
    }
}

/// Prefix preservation composes across successive parsing steps.
proof fn lemma_bindings_prefix_trans(a: Seq<PatBinding>, b: Seq<PatBinding>, c: Seq<PatBinding>)
    requires
        b.len() >= a.len(),
        b.take(a.len() as int) == a,
        c.len() >= b.len(),
        c.take(b.len() as int) == b,
    ensures
        c.len() >= a.len(),
        c.take(a.len() as int) == a,
{
    assert(c.take(a.len() as int) =~= b.take(a.len() as int));
}

/// The parsed dump: its tree, the bindings found in it, and the line
/// count kept for error reports.
#[derive(Debug)]
pub struct RawInfo {
    pub bindings: Vec<PatBinding>,
    pub thir: Thir,
    pub dbg_line: usize,
}

/// The string with its last character dropped; empty stays empty.
pub fn remove_last_char(buf: String) -> (r: String)
    ensures
        buf@.len() == 0 ==> r@ == buf@,
        buf@.len() > 0 ==> r@ == buf@.take(buf@.len() - 1),
{
    let mut chars = crate::strutil::chars_of(buf.as_str());
    if chars.len() > 0 {
        chars.pop();
        proof {
            assert(chars@ =~= buf@.take(buf@.len() - 1));
        }
    }
    chars_to_string(&chars)
}

/// Wraps a snippet into a main function, making it a compilable program
/// for the type-lookup toolchain.
pub fn format_main_code(code: String) -> (r: String)
    ensures
        r@ == "fn main() {\n"@ + code@ + "\n}\n"@,
{
    let mut out = String::from_str("fn main() {\n");
    out.append(code.as_str());
    out.append("\n}\n");
    proof {
        assert(out@ =~= "fn main() {\n"@ + code@ + "\n}\n"@);
    }
    out
}

impl RawInfo {
    /// Parses a whole dump: the first line is the toolchain's banner and
    /// is skipped, the rest is one tree. A dump that ends early or puts a
    /// delimiter where an item should stand is an error.
    pub fn serialize(thir_raw: String) -> (r: Result<RawInfo, String>)
    {
        let chars = crate::strutil::chars_of(thir_raw.as_str());
        let mut pos: usize = 0;
        while pos < chars.len() && chars[pos] != '\n'
            invariant
                pos <= chars@.len(),
            decreases chars@.len() - pos,
        {
            pos = pos + 1;
        }
        if pos < chars.len() {
            pos = pos + 1;
        }
        let mut info = RawInfo { bindings: Vec::new(), thir: Thir::Text(String::new()), dbg_line: 0 };
        match info.switch(&chars, pos) {
            Ok((thir, _)) => {
                info.thir = thir;
                Ok(info)
            },
            Err(e) => Err(e),
        }
    }

    /// Reads one item of the dump: a line ending in `{` opens a field
    /// group, `[` a list, `(` a named list, and a line ending in `,` is a
    /// text leaf (quotes stripped). A closing delimiter line signals the
    /// end of the enclosing collection.
    pub fn switch(&mut self, chars: &Vec<char>, pos: usize) -> (r: Result<(Thir, usize), String>)
        requires
            pos <= chars@.len(),
        ensures
            r matches Ok(p) ==> pos < p.1 <= chars@.len(),
            final(self).bindings@.len() >= old(self).bindings@.len(),
            final(self).bindings@.take(old(self).bindings@.len() as int) == old(self).bindings@,
        decreases chars@.len() - pos, 0nat,
    {
        proof {
            assert(old(self).bindings@.take(old(self).bindings@.len() as int) =~= old(
                self,
            ).bindings@);
        }
        let mut buf: Vec<char> = Vec::new();
        let mut prev_c = ' ';
        let mut i: usize = pos;
        while i < chars.len()
            invariant
                pos <= i <= chars@.len(),
                self.bindings@.len() >= old(self).bindings@.len(),
                self.bindings@.take(old(self).bindings@.len() as int) == old(self).bindings@,
            decreases chars@.len() - i,
        {
            let c = chars[i];
            i = i + 1;
            if c == '\n' {
                if self.dbg_line < usize::MAX {
                    self.dbg_line = self.dbg_line + 1;
                }
                if prev_c == '{' {
                    let name = pop_last(buf);
                    let ghost b0 = self.bindings@;
                    let (fields, j) = match self.parse_map(chars, i) {
                        Ok(p) => p,
                        Err(e) => {
                            proof {
                                lemma_bindings_prefix_trans(
                                    old(self).bindings@,
                                    b0,
                                    self.bindings@,
                                );
                            }
                            return Err(e);
                        },
                    };
                    let ghost b1 = self.bindings@;
                    let thir = Thir::Fields((chars_to_string(&name), fields));
                    self.insert_item(&thir);
                    proof {
                        lemma_bindings_prefix_trans(old(self).bindings@, b0, b1);
                        assert(self.bindings@.take(b1.len() as int) =~= b1);
                        lemma_bindings_prefix_trans(old(self).bindings@, b1, self.bindings@);
                    }
                    return Ok((thir, j));
                } else if prev_c == '[' {
                    let ghost b0 = self.bindings@;
                    let (items, j) = match self.parse_vec(chars, i) {
                        Ok(p) => p,
                        Err(e) => {
                            proof {
                                lemma_bindings_prefix_trans(
                                    old(self).bindings@,
                                    b0,
                                    self.bindings@,
                                );
                            }
                            return Err(e);
                        },
                    };
                    let ghost b1 = self.bindings@;
                    let thir = Thir::List(items);
                    self.insert_item(&thir);
                    proof {
                        lemma_bindings_prefix_trans(old(self).bindings@, b0, b1);
                        assert(self.bindings@.take(b1.len() as int) =~= b1);
                        lemma_bindings_prefix_trans(old(self).bindings@, b1, self.bindings@);
                    }
                    return Ok((thir, j));
                } else if prev_c == '(' {
                    let name = pop_last(buf);
                    let ghost b0 = self.bindings@;
                    let (items, j) = match self.parse_vec(chars, i) {
                        Ok(p) => p,
                        Err(e) => {
                            proof {
                                lemma_bindings_prefix_trans(
                                    old(self).bindings@,
                                    b0,
                                    self.bindings@,
                                );
                            }
                            return Err(e);
                        },
                    };
                    proof {
                        lemma_bindings_prefix_trans(old(self).bindings@, b0, self.bindings@);
                    }
                    return Ok((Thir::NamedList((chars_to_string(&name), items)), j));
                } else if prev_c == ',' {
                    if buf.len() == 2 && is_close_delim(buf[0]) {
                        return Err(String::from_str("Close delimiter."));
                    } else {
                        let trimmed = pop_last(buf);
                        let text = strip_quotes(trimmed);
                        return Ok((Thir::Text(chars_to_string(&text)), i));
                    }
                } else {
                    return Err(
                        String::from_str("Triage : line must end with { or [ or ( or ,"),
                    );
                }
            } else if c == ' ' {
                prev_c = c;
            } else {
                buf.push(c);
                prev_c = c;
            }
        }
        Err(String::from_str("Triage as consumed whole chars."))
    }

    /// Reads list items until the list's closing delimiter.
    pub fn parse_vec(&mut self, chars: &Vec<char>, pos: usize) -> (r: Result<
        (Vec<Thir>, usize),
        String,
    >)
        requires
            pos <= chars@.len(),
        ensures
            r matches Ok(p) ==> pos <= p.1 <= chars@.len(),
            final(self).bindings@.len() >= old(self).bindings@.len(),
            final(self).bindings@.take(old(self).bindings@.len() as int) == old(self).bindings@,
        decreases chars@.len() - pos, 1nat,
    {
        proof {
            assert(old(self).bindings@.take(old(self).bindings@.len() as int) =~= old(
                self,
            ).bindings@);
        }
        let mut thirs: Vec<Thir> = Vec::new();
        let mut i: usize = pos;
        loop
            invariant_except_break
                pos <= i <= chars@.len(),
                self.bindings@.len() >= old(self).bindings@.len(),
                self.bindings@.take(old(self).bindings@.len() as int) == old(self).bindings@,
            ensures
                pos <= i <= chars@.len(),
                self.bindings@.len() >= old(self).bindings@.len(),
                self.bindings@.take(old(self).bindings@.len() as int) == old(self).bindings@,
            decreases chars@.len() - i,
        {
            let ghost b0 = self.bindings@;
            match self.switch(chars, i) {
                Ok((thir, j)) => {
                    thirs.push(thir);
                    i = j;
                },
                Err(_) => {
                    proof {
                        lemma_bindings_prefix_trans(old(self).bindings@, b0, self.bindings@);
                    }
                    break;
                },
            }
            proof {
                lemma_bindings_prefix_trans(old(self).bindings@, b0, self.bindings@);
            }
            if i >= chars.len() {
                break;
            }
        }
        Ok((thirs, i))
    }

    /// Reads `name: item` pairs until the group's closing brace.
    pub fn parse_map(&mut self, chars: &Vec<char>, pos: usize) -> (r: Result<
        (Vec<(String, Thir)>, usize),
        String,
    >)
        requires
            pos <= chars@.len(),
        ensures
            r matches Ok(p) ==> pos <= p.1 <= chars@.len(),
            final(self).bindings@.len() >= old(self).bindings@.len(),
            final(self).bindings@.take(old(self).bindings@.len() as int) == old(self).bindings@,
        decreases chars@.len() - pos, 2nat,
    {
        proof {
            assert(old(self).bindings@.take(old(self).bindings@.len() as int) =~= old(
                self,
            ).bindings@);
        }
        let mut tree: Vec<(String, Thir)> = Vec::new();
        let mut name: Vec<char> = Vec::new();
        let mut i: usize = pos;
        while i < chars.len()
            invariant
                pos <= i <= chars@.len(),
                self.bindings@.len() >= old(self).bindings@.len(),
                self.bindings@.take(old(self).bindings@.len() as int) == old(self).bindings@,
            decreases chars@.len() - i,
        {
            let c = chars[i];
            i = i + 1;
            if c == '}' {
                break;
            } else if c == ':' {
                let ghost b0 = self.bindings@;
                match self.switch(chars, i) {
                    Ok((thir, j)) => {
                        proof {
                            lemma_bindings_prefix_trans(old(self).bindings@, b0, self.bindings@);
                        }
                        tree.push((chars_to_string(&name), thir));
                        name = Vec::new();
                        i = j;
                    },
                    Err(_) => {
                        proof {
                            lemma_bindings_prefix_trans(old(self).bindings@, b0, self.bindings@);
                        }
                        break;
                    },
                }
            } else if c == ' ' || c == ',' {
            } else if c == '\n' {
                if self.dbg_line < usize::MAX {
                    self.dbg_line = self.dbg_line + 1;
                }
            } else if (c >= 'a' && c <= 'z') || c == '_' {
                name.push(c);
            } else {
                return Err(String::from_str("Unknown char in Brace item."));
            }
        }
        Ok((tree, i))
    }

    /// Records a binding when the item is a `Pat` group whose kind is a
    /// `Binding` group: the binding's `name` and `ty` texts, taken from
    /// the two groups' fields together.
    pub fn insert_item(&mut self, thir: &Thir)
        ensures
            final(self).thir == old(self).thir,
            final(self).dbg_line == old(self).dbg_line,
            binding_of(*thir) matches Some(p) ==> {
                &&& final(self).bindings@.len() == old(self).bindings@.len() + 1
                &&& final(self).bindings@.last().name@ == p.0
                &&& final(self).bindings@.last().ty@ == p.1
                &&& final(self).bindings@.take(old(self).bindings@.len() as int) == old(
                    self,
                ).bindings@
            },
            binding_of(*thir) is None ==> final(self).bindings@ == old(self).bindings@,
    {
        match thir {
            Thir::Fields((name, pat_fields)) => {
                if str_eq(name.as_str(), "Pat") {
                    let kind = map_get(pat_fields, "kind");
                    match kind {
                        Some(inner) => match inner {
                            Thir::Fields((kind_name, binding_fields)) => {
                                if str_eq(kind_name.as_str(), "Binding") {
                                    let b_name = match map_get_text(binding_fields, "name") {
                                        Some(t) => Some(t),
                                        None => map_get_text(pat_fields, "name"),
                                    };
                                    let b_ty = match map_get_text(binding_fields, "ty") {
                                        Some(t) => Some(t),
                                        None => map_get_text(pat_fields, "ty"),
                                    };
                                    match (b_name, b_ty) {
                                        (Some(n), Some(t)) => {
                                            self.bindings.push(PatBinding { name: n, ty: t });
                                        },
                                        _ => {},
                                    }
                                }
                            },
                            _ => {},
                        },
                        None => {},
                    }
                }
            },
            _ => {},
        }
    }
}

/// The last entry of a field list under this name.
fn map_get<'a>(fields: &'a Vec<(String, Thir)>, key: &str) -> (r: Option<&'a Thir>)
    ensures
        r matches Some(t) ==> map_get_spec(fields@, key@) == Some(*t),
        r is None <==> map_get_spec(fields@, key@) is None,
{
    let mut found: Option<&'a Thir> = None;
    let mut i: usize = 0;
    while i < fields.len()
        invariant
            i <= fields@.len(),
            found matches Some(t) ==> map_get_spec(fields@.take(i as int), key@) == Some(*t),
            found is None <==> map_get_spec(fields@.take(i as int), key@) is None,
        decreases fields@.len() - i,
    {
        proof {
            assert(fields@.take(i + 1) =~= fields@.take(i as int).push(fields@[i as int]));
            lemma_map_get_spec_snoc(fields@.take(i as int), fields@[i as int], key@);
        }
        if str_eq(fields[i].0.as_str(), key) {
            found = Some(&fields[i].1);
        }
        i = i + 1;
    }
    proof {
        assert(fields@.take(fields@.len() as int) =~= fields@);
    }
    found
}

/// Appending one entry makes it the winner when its key matches.
proof fn lemma_map_get_spec_snoc(fields: Seq<(String, Thir)>, x: (String, Thir), key: Seq<char>)
    ensures
        map_get_spec(fields.push(x), key) == if x.0@ == key {
            Some(x.1)
        } else {
            map_get_spec(fields, key)
        },
    decreases fields,
{
    reveal_with_fuel(map_get_spec, 3);
    if fields.len() == 0 {
        assert(fields.push(x).skip(1) =~= Seq::<(String, Thir)>::empty());
        assert(fields.push(x)[0] == x);
    } else {
        lemma_map_get_spec_snoc(fields.skip(1), x, key);
        assert(fields.push(x).skip(1) =~= fields.skip(1).push(x));
        assert(fields.push(x)[0] == fields[0]);
    }
}

/// The text leaf stored under this name, if any.
fn map_get_text(fields: &Vec<(String, Thir)>, key: &str) -> (r: Option<String>)
    ensures
        r matches Some(v) ==> map_get_text_spec(fields@, key@) == Some(v@),
        r is None <==> map_get_text_spec(fields@, key@) is None,
{
    match map_get(fields, key) {
        Some(t) => match t {
            Thir::Text(s) => Some(s.clone()),
            _ => None,
        },
        None => None,
    }
}

/// The buffer with its last character dropped.
fn pop_last(buf: Vec<char>) -> (r: Vec<char>)
    ensures
        buf@.len() == 0 ==> r@ == buf@,
        buf@.len() > 0 ==> r@ == buf@.take(buf@.len() - 1),
{
    let mut b = buf;
    if b.len() > 0 {
        let ghost pre = b@;
        b.pop();
        proof {
            assert(b@ =~= pre.take(pre.len() - 1));
        }
    }
    b
}

/// Whether the character closes a collection in the dump.
fn is_close_delim(c: char) -> (r: bool)
    ensures
        r == (c == '}' || c == ']' || c == ')'),
{
    c == '}' || c == ']' || c == ')'
}

/// Strips one pair of surrounding double quotes; an unquoted buffer is
/// returned unchanged.
fn strip_quotes(buf: Vec<char>) -> (r: Vec<char>) {
    if buf.len() >= 2 && buf[0] == '"' && buf[buf.len() - 1] == '"' {
        let mut out: Vec<char> = Vec::new();
        let mut i: usize = 1;
        while i < buf.len() - 1
            invariant
                buf@.len() >= 2,
                1 <= i <= buf@.len(),
            decreases buf@.len() - i,
        {
            out.push(buf[i]);
            i = i + 1;
        }
        out
    } else {
        buf
    }
}

} // verus!
