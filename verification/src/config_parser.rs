use vstd::prelude::*;

use crate::json_parser::{spec_parse_json, spec_parse_number, spec_quoted};
use crate::model::{
    attr_seq_view, at_seq_view, at_view, attr_view, tfb_view, Attribute, AttributeType,
    AttributeTypeV, AttributeV, JsonValue, TemplateString, TemplateStringV, TerraformBlock,
    TerraformBlockV, TerraformBlockWithNoIdentifiers, TerraformBlockWithOneIdentifier,
    TerraformBlockWithTwoIdentifiers,
};
use crate::text::{
    alnum_char, check_tag, has_tag, is_alnum_char, skip_sp,
    skip_ws, sp_end, str_to_chars, ws_end,
};

verus! {

broadcast use vstd::std_specs::vec::group_vec_axioms;

/// Characters of a bare configuration identifier.
pub open spec fn is_cfg_ident_char(c: char) -> bool {
    is_alnum_char(c) || c == '_' || c == '/'
}

pub fn cfg_ident_char(c: char) -> (r: bool)
    ensures
        r == is_cfg_ident_char(c),
{
    alnum_char(c) || c == '_' || c == '/'
}

pub open spec fn cfg_ident_end(s: Seq<char>, i: int) -> int
    decreases s.len() - i,
{
    if 0 <= i < s.len() && is_cfg_ident_char(s[i]) {
        cfg_ident_end(s, i + 1)
    } else {
        i
    }
}

pub fn scan_cfg_ident(s: &Vec<char>, i: usize) -> (r: usize)
    requires
        i <= s@.len(),
    ensures
        r == cfg_ident_end(s@, i as int),
        i <= r <= s@.len(),
    decreases s@.len() - i,
{
    if i < s.len() && cfg_ident_char(s[i]) {
        scan_cfg_ident(s, i + 1)
    } else {
        i
    }
}

pub open spec fn alnum_end(s: Seq<char>, i: int) -> int
    decreases s.len() - i,
{
    if 0 <= i < s.len() && is_alnum_char(s[i]) {
        alnum_end(s, i + 1)
    } else {
        i
    }
}

pub fn scan_alnum(s: &Vec<char>, i: usize) -> (r: usize)
    requires
        i <= s@.len(),
    ensures
        r == alnum_end(s@, i as int),
        i <= r <= s@.len(),
    decreases s@.len() - i,
{
    if i < s.len() && alnum_char(s[i]) {
        scan_alnum(s, i + 1)
    } else {
        i
    }
}

/// Characters allowed inside a `${...}` interpolation.
pub open spec fn is_template_char(c: char) -> bool {
    is_alnum_char(c) || c == '_' || c == '-' || c == ':' || c == '/' || c == '.' || c == '('
        || c == ')' || c == '"'
}

pub fn template_char(c: char) -> (r: bool)
    ensures
        r == is_template_char(c),
{
    alnum_char(c) || c == '_' || c == '-' || c == ':' || c == '/' || c == '.' || c == '(' || c
        == ')' || c == '"'
}

pub open spec fn template_end(s: Seq<char>, i: int) -> int
    decreases s.len() - i,
{
    if 0 <= i < s.len() && is_template_char(s[i]) {
        template_end(s, i + 1)
    } else {
        i
    }
}

pub fn scan_template(s: &Vec<char>, i: usize) -> (r: usize)
    requires
        i <= s@.len(),
    ensures
        r == template_end(s@, i as int),
        i <= r <= s@.len(),
    decreases s@.len() - i,
{
    if i < s.len() && template_char(s[i]) {
        scan_template(s, i + 1)
    } else {
        i
    }
}

/// End of the current line: the next carriage return or newline.
pub open spec fn line_end(s: Seq<char>, i: int) -> int
    decreases s.len() - i,
{
    if 0 <= i < s.len() && s[i] != '\r' && s[i] != '\n' {
        line_end(s, i + 1)
    } else {
        i
    }
}

pub fn scan_line(s: &Vec<char>, i: usize) -> (r: usize)
    requires
        i <= s@.len(),
    ensures
        r == line_end(s@, i as int),
        i <= r <= s@.len(),
    decreases s@.len() - i,
{
    if i < s.len() && s[i] != '\r' && s[i] != '\n' {
        scan_line(s, i + 1)
    } else {
        i
    }
}

/// A line comment: `//` or `#` up to the end of the line, the line break
/// not consumed.
pub open spec fn spec_comment(s: Seq<char>, i: int) -> Option<int> {
    if has_tag(s, i, "//"@) {
        Some(line_end(s, i + 2))
    } else if 0 <= i < s.len() && s[i] == '#' {
        Some(line_end(s, i + 1))
    } else {
        None
    }
}

pub fn parse_comment(s: &Vec<char>, i: usize) -> (r: Option<usize>)
    requires
        i <= s@.len(),
    ensures
        match (r, spec_comment(s@, i as int)) {
            (Some(j), Some(sj)) => j == sj && i <= j <= s@.len(),
            (None, None) => true,
            _ => false,
        },
{
    proof {
        reveal_strlit("//");
        assert(s.len() == s@.len());
    }
    let t = str_to_chars("//");
    if check_tag(s, i, &t) {
        Some(scan_line(s, i + 2))
    } else if i < s.len() && s[i] == '#' {
        Some(scan_line(s, i + 1))
    } else {
        None
    }
}

/// Skip comment lines and blank lines, as long as what follows starts
/// another comment or blank line.  Fails only at the end of the input.
pub open spec fn spec_cabl(s: Seq<char>, i: int) -> Option<int>
    decreases s.len() - i,
{
    let j = match spec_comment(s, i) {
        Some(j) => j,
        None => ws_end(s, i),
    };
    if !(i <= j && j <= s.len()) {
        None
    } else if j >= s.len() {
        None
    } else if s[j] == '#' || s[j] == '\n' {
        if i < j {
            spec_cabl(s, j)
        } else {
            None
        }
    } else {
        Some(j)
    }
}

pub fn skip_cabl(s: &Vec<char>, i: usize) -> (r: Option<usize>)
    requires
        i <= s@.len(),
    ensures
        match (r, spec_cabl(s@, i as int)) {
            (Some(j), Some(sj)) => j == sj && i <= j < s@.len(),
            (None, None) => true,
            _ => false,
        },
    decreases s@.len() - i,
{
    let j = match parse_comment(s, i) {
        Some(j) => j,
        None => skip_ws(s, i),
    };
    if j >= s.len() {
        return None;
    }
    if s[j] == '#' || s[j] == '\n' {
        proof {
            // a comment never stops at `#` or `\n` without progress, and
            // whitespace skipping consumes a leading newline
            if i == j {
                if spec_comment(s@, i as int) is Some {
                    lemma_line_end_ge(s@, i as int);
                } else {
                    assert(s@[i as int] != '#');
                    if s@[i as int] == '\n' {
                        crate::text::lemma_ws_end(s@, i + 1);
                        assert(ws_end(s@, i as int) == ws_end(s@, i + 1));
                    }
                }
                assert(false);
            }
        }
        skip_cabl(s, j)
    } else {
        Some(j)
    }
}

proof fn lemma_line_end_ge(s: Seq<char>, i: int)
    requires
        0 <= i,
    ensures
        line_end(s, i + 1) >= i + 1,
        line_end(s, i + 2) >= i + 2,
    decreases s.len() - i,
{
    lemma_line_end_ge_one(s, i + 1);
    lemma_line_end_ge_one(s, i + 2);
}

proof fn lemma_line_end_ge_one(s: Seq<char>, i: int)
    requires
        0 <= i,
    ensures
        line_end(s, i) >= i,
    decreases s.len() - i,
{
    if 0 <= i < s.len() && s[i] != '\r' && s[i] != '\n' {
        lemma_line_end_ge_one(s, i + 1);
    }
}

/// The identifier tokens before a block's opening brace: bare alphanumeric
/// runs or quoted strings, separated by spaces.
pub open spec fn spec_ident_list(s: Seq<char>, i: int) -> (Seq<Seq<char>>, int)
    decreases s.len() - i,
{
    let sp = sp_end(s, i);
    if !(i <= sp && sp <= s.len()) {
        (Seq::empty(), i)
    } else if sp < s.len() && is_alnum_char(s[sp]) {
        let e = alnum_end(s, sp);
        if sp < e <= s.len() {
            let (rest, p) = spec_ident_list(s, e);
            (seq![s.subrange(sp, e)] + rest, p)
        } else {
            (Seq::empty(), i)
        }
    } else {
        match spec_quoted(s, sp) {
            Some((t, j)) => if sp < j <= s.len() {
                let (rest, p) = spec_ident_list(s, j);
                (seq![t] + rest, p)
            } else {
                (Seq::empty(), i)
            },
            None => (Seq::empty(), i),
        }
    }
}

/// `parse_identifiers`: leading whitespace, the identifier tokens, and
/// trailing spaces.
pub open spec fn spec_identifiers(s: Seq<char>, i: int) -> (Seq<Seq<char>>, int) {
    let w = ws_end(s, i);
    let (ids, p) = spec_ident_list(s, w);
    (ids, sp_end(s, p))
}

/// A `"${...}"` interpolation holding a dotted reference.
pub open spec fn spec_templated(s: Seq<char>, i: int) -> Option<(Seq<char>, int)> {
    let sp = sp_end(s, i);
    if i <= sp && has_tag(s, sp, "\"${"@) {
        let e = template_end(s, sp + 3);
        if e <= s.len() && has_tag(s, e, "}\""@) {
            Some((s.subrange(sp + 3, e), e + 2))
        } else {
            None
        }
    } else {
        None
    }
}

pub fn parse_templated(s: &Vec<char>, i: usize) -> (r: Option<(String, usize)>)
    requires
        i <= s@.len(),
    ensures
        match (r, spec_templated(s@, i as int)) {
            (Some((t, j)), Some((st, sj))) => t@ == st && j == sj && i < j <= s@.len(),
            (None, None) => true,
            _ => false,
        },
{
    proof {
        reveal_strlit("\"${");
        reveal_strlit("}\"");
        assert(s.len() == s@.len());
    }
    let sp = skip_sp(s, i);
    let open = str_to_chars("\"${");
    let close = str_to_chars("}\"");
    if check_tag(s, sp, &open) {
        let e = scan_template(s, sp + 3);
        if check_tag(s, e, &close) {
            return Some((crate::json_parser::copy_range(s, sp + 3, e), e + 2));
        }
    }
    None
}

/// A serialized JSON document inside a quoted string.
pub open spec fn spec_serialised(s: Seq<char>, i: int) -> Option<(crate::model::JsonValueV, int)> {
    if 0 <= i < s.len() && s[i] == '"' {
        match spec_parse_json(s, i + 1) {
            Some((v, j)) => if j < s.len() && s[j] == '"' {
                Some((v, j + 1))
            } else {
                None
            },
            None => None,
        }
    } else {
        None
    }
}

pub fn parse_serialised(s: &Vec<char>, i: usize) -> (r: Option<(JsonValue, usize)>)
    requires
        i <= s@.len(),
        s@.len() < 0x1000_0000_0000,
    ensures
        match (r, spec_serialised(s@, i as int)) {
            (Some((v, j)), Some((sv, sj))) => v@ == sv && j == sj && i < j <= s@.len(),
            (None, None) => true,
            _ => false,
        },
{
    if i < s.len() && s[i] == '"' {
        match crate::json_parser::parse_json_at(s, i + 1) {
            Some((v, j)) => {
                if j < s.len() && s[j] == '"' {
                    Some((v, j + 1))
                } else {
                    None
                }
            },
            None => None,
        }
    } else {
        None
    }
}

/// A heredoc-wrapped JSON document.
pub open spec fn spec_heredoc(s: Seq<char>, i: int) -> Option<(crate::model::JsonValueV, int)> {
    let w = ws_end(s, i);
    let b = if i <= w && has_tag(s, w, "<<EOF"@) {
        w + 5
    } else if i <= w && has_tag(s, w, "<<CONTAINER_DEFINITIONS"@) {
        w + 23
    } else {
        -1
    };
    if b < 0 {
        None
    } else {
        match spec_parse_json(s, b) {
            Some((v, j)) => {
                let c = ws_end(s, j);
                if has_tag(s, c, "EOF"@) {
                    Some((v, c + 3))
                } else if has_tag(s, c, "CONTAINER_DEFINITIONS"@) {
                    Some((v, c + 21))
                } else {
                    None
                }
            },
            None => None,
        }
    }
}

pub fn parse_heredoc(s: &Vec<char>, i: usize) -> (r: Option<(JsonValue, usize)>)
    requires
        i <= s@.len(),
        s@.len() < 0x1000_0000_0000,
    ensures
        match (r, spec_heredoc(s@, i as int)) {
            (Some((v, j)), Some((sv, sj))) => v@ == sv && j == sj && i < j <= s@.len(),
            (None, None) => true,
            _ => false,
        },
{
    proof {
        reveal_strlit("<<EOF");
        reveal_strlit("<<CONTAINER_DEFINITIONS");
        reveal_strlit("EOF");
        reveal_strlit("CONTAINER_DEFINITIONS");
        assert(s.len() == s@.len());
    }
    let w = skip_ws(s, i);
    let open_eof = str_to_chars("<<EOF");
    let open_cd = str_to_chars("<<CONTAINER_DEFINITIONS");
    let close_eof = str_to_chars("EOF");
    let close_cd = str_to_chars("CONTAINER_DEFINITIONS");
    let b: usize = if check_tag(s, w, &open_eof) {
        w + 5
    } else if check_tag(s, w, &open_cd) {
        w + 23
    } else {
        return None;
    };
    match crate::json_parser::parse_json_at(s, b) {
        Some((v, j)) => {
            let c = skip_ws(s, j);
            if check_tag(s, c, &close_eof) {
                Some((v, c + 3))
            } else if check_tag(s, c, &close_cd) {
                Some((v, c + 21))
            } else {
                None
            }
        },
        None => None,
    }
}


/// The block-type keywords that head an unnamed top-level block.
pub open spec fn is_block_keyword(id: Seq<char>) -> bool {
    id == "resource"@ || id == "provider"@ || id == "data"@ || id == "terraform"@ || id
        == "variable"@
}

/// Which block variant a list of leading identifiers builds.  A block
/// headed by no identifiers, or by more than three, is a grammar
/// violation and fails the parse.
pub open spec fn spec_build_block(ids: Seq<Seq<char>>, attrs: Seq<AttributeV>) -> Option<
    TerraformBlockV,
> {
    if ids.len() == 1 {
        if is_block_keyword(ids[0]) {
            Some(TerraformBlockV::NoIdentifiers { block_type: ids[0], attributes: attrs })
        } else {
            Some(
                TerraformBlockV::WithOneIdentifier {
                    block_type: "inner"@,
                    first_identifier: ids[0],
                    attributes: attrs,
                },
            )
        }
    } else if ids.len() == 2 {
        Some(
            TerraformBlockV::WithOneIdentifier {
                block_type: ids[0],
                first_identifier: ids[1],
                attributes: attrs,
            },
        )
    } else if ids.len() == 3 {
        Some(
            TerraformBlockV::WithTwoIdentifiers {
                block_type: ids[0],
                first_identifier: ids[1],
                second_identifier: ids[2],
                attributes: attrs,
            },
        )
    } else {
        None
    }
}

/// An attribute value, tried in the grammar's fixed precedence order:
/// templated string, serialized JSON, boolean, number, inline map,
/// nested named block, plain string, array, heredoc JSON.
pub open spec fn spec_block_value(s: Seq<char>, i: int) -> Option<(AttributeTypeV, int)>
    decreases s.len() - i, 2int,
{
    let sp = sp_end(s, i);
    if !(i <= sp && sp <= s.len()) {
        None
    } else {
        match spec_templated(s, sp) {
            Some((t, p)) => Some(
                (AttributeTypeV::TemplatedString(TemplateStringV::Variable(t)), p),
            ),
            None => match spec_serialised(s, sp) {
                Some((v, p)) => Some((AttributeTypeV::Json(v), p)),
                None => if has_tag(s, sp, "true"@) {
                    Some((AttributeTypeV::Boolean(true), sp + 4))
                } else if has_tag(s, sp, "false"@) {
                    Some((AttributeTypeV::Boolean(false), sp + 5))
                } else {
                    match spec_parse_number(s, sp) {
                        Some((n, p)) => Some((AttributeTypeV::Num(n), p)),
                        None => match spec_basic_block(s, sp) {
                            Some((attrs, p)) => Some((AttributeTypeV::Block(attrs), p)),
                            None => match spec_tf_block(s, sp) {
                                Some((b, p)) => Some((AttributeTypeV::TFBlock(b), p)),
                                None => match spec_quoted(s, sp) {
                                    Some((t, p)) => Some((AttributeTypeV::Str(t), p)),
                                    None => match spec_cfg_array(s, sp) {
                                        Some((elems, p)) => Some(
                                            (AttributeTypeV::Array(elems), p),
                                        ),
                                        None => match spec_heredoc(s, sp) {
                                            Some((v, p)) => Some((AttributeTypeV::Json(v), p)),
                                            None => None,
                                        },
                                    },
                                },
                            },
                        },
                    }
                },
            },
        }
    }
}

/// A `key = value` or `key value` pair: a quoted or bare key, an optional
/// `=`, and a value.
pub open spec fn spec_cfg_key_value(s: Seq<char>, i: int) -> Option<(Seq<char>, AttributeTypeV, int)>
    decreases s.len() - i, 3int,
{
    let w = ws_end(s, i);
    if !(i <= w && w <= s.len()) {
        None
    } else {
        let q = spec_quoted_key_value(s, i, w);
        if q is Some {
            q
        } else {
            let e = cfg_ident_end(s, sp_end(s, w));
            let sp = sp_end(s, w);
            if !(w <= sp && sp <= e <= s.len()) {
                None
            } else {
                match spec_block_value(s, e) {
                    Some((v, p)) => Some((s.subrange(sp, e), v, p)),
                    None => {
                        let c = sp_end(s, e);
                        if e <= c && c < s.len() && s[c] == '=' {
                            match spec_block_value(s, c + 1) {
                                Some((v, p)) => Some((s.subrange(sp, e), v, p)),
                                None => None,
                            }
                        } else {
                            None
                        }
                    },
                }
            }
        }
    }
}

/// The quoted-key form: `"key" = value`.
pub open spec fn spec_quoted_key_value(s: Seq<char>, i: int, w: int) -> Option<
    (Seq<char>, AttributeTypeV, int),
>
    decreases s.len() - i, 2int,
{
    let sp = sp_end(s, w);
    if i <= w <= sp < s.len() && s[sp] == '"' {
        let e = cfg_ident_end(s, sp + 1);
        if sp + 1 <= e && e < s.len() && s[e] == '"' {
            let c = sp_end(s, e + 1);
            if e + 1 <= c && c < s.len() && s[c] == '=' {
                match spec_block_value(s, c + 1) {
                    Some((v, p)) => Some((s.subrange(sp + 1, e), v, p)),
                    None => None,
                }
            } else {
                None
            }
        } else {
            None
        }
    } else {
        None
    }
}

/// Attributes separated by a newline (with trailing spaces allowed on
/// each line).
pub open spec fn spec_sep_attrs(s: Seq<char>, i: int) -> (Seq<AttributeV>, int)
    decreases s.len() - i, 4int,
{
    match spec_cfg_key_value(s, i) {
        None => (Seq::empty(), i),
        Some((k, v, j)) => {
            let sp = sp_end(s, j);
            if i < j <= s.len() && j <= sp && sp < s.len() && s[sp] == '\n'
                && spec_cfg_key_value(s, sp + 1) is Some {
                let (rest, e) = spec_sep_attrs(s, sp + 1);
                (seq![AttributeV { key: k, value: v }] + rest, e)
            } else {
                (seq![AttributeV { key: k, value: v }], j)
            }
        },
    }
}

/// The braced body of a block: `{` attributes `}`.
pub open spec fn spec_basic_block(s: Seq<char>, i: int) -> Option<(Seq<AttributeV>, int)>
    decreases s.len() - i, 0int,
{
    if 0 <= i && i < s.len() && s[i] == '{' {
        let w = ws_end(s, i + 1);
        if i + 1 <= w && w <= s.len() {
            let (attrs, j) = spec_sep_attrs(s, w);
            let c = ws_end(s, j);
            if 0 <= j && c < s.len() && s[c] == '}' {
                Some((attrs, c + 1))
            } else {
                None
            }
        } else {
            None
        }
    } else {
        None
    }
}

/// A named block: comments and blank lines, identifiers, then the body.
pub open spec fn spec_tf_block(s: Seq<char>, i: int) -> Option<(TerraformBlockV, int)>
    decreases s.len() - i, 1int,
{
    match spec_cabl(s, i) {
        None => None,
        Some(p) => {
            if i <= p && p <= s.len() {
                let (ids, q) = spec_identifiers(s, p);
                if i <= q && q <= s.len() {
                    match spec_basic_block(s, q) {
                        Some((attrs, r)) => match spec_build_block(ids, attrs) {
                            Some(b) => Some((b, r)),
                            None => None,
                        },
                        None => None,
                    }
                } else {
                    None
                }
            } else {
                None
            }
        },
    }
}

/// A bracketed, comma-separated list of values.
pub open spec fn spec_cfg_array(s: Seq<char>, i: int) -> Option<(Seq<AttributeTypeV>, int)>
    decreases s.len() - i, 1int,
{
    if 0 <= i && i < s.len() && s[i] == '[' {
        let w = ws_end(s, i + 1);
        if i + 1 <= w && w <= s.len() {
            let (elems, j) = spec_cfg_elems(s, w);
            let c = ws_end(s, j);
            if 0 <= j && c < s.len() && s[c] == ']' {
                Some((elems, c + 1))
            } else {
                None
            }
        } else {
            None
        }
    } else {
        None
    }
}

/// Zero or more comma-separated array elements, each with leading
/// whitespace allowed.
pub open spec fn spec_cfg_elems(s: Seq<char>, i: int) -> (Seq<AttributeTypeV>, int)
    decreases s.len() - i, 3int,
{
    let w = ws_end(s, i);
    if !(i <= w && w <= s.len()) {
        (Seq::empty(), i)
    } else {
        match spec_block_value(s, w) {
            None => (Seq::empty(), i),
            Some((v, j)) => {
                let sp = sp_end(s, j);
                if w < j <= s.len() && j <= sp && sp < s.len() && s[sp] == ',' && {
                    let w2 = ws_end(s, sp + 1);
                    sp + 1 <= w2 && w2 <= s.len() && spec_block_value(s, w2) is Some
                } {
                    let (rest, e) = spec_cfg_elems(s, sp + 1);
                    (seq![v] + rest, e)
                } else {
                    (seq![v], j)
                }
            },
        }
    }
}

/// Zero or more top-level blocks; parsing stops at the first position
/// that does not start a block.
pub open spec fn spec_root(s: Seq<char>, i: int) -> (Seq<TerraformBlockV>, int)
    decreases s.len() - i, 2int,
{
    match spec_tf_block(s, i) {
        None => (Seq::empty(), i),
        Some((b, j)) => {
            if i < j <= s.len() {
                let (rest, e) = spec_root(s, j);
                (seq![b] + rest, e)
            } else {
                (seq![b], j)
            }
        },
    }
}

/// A one-pair inline map: `{ "key" = value }`.
pub open spec fn spec_inline_block(s: Seq<char>, i: int) -> Option<(Seq<char>, AttributeTypeV, int)> {
    let sp = sp_end(s, i);
    if i <= sp && sp < s.len() && s[sp] == '{' {
        match spec_cfg_key_value(s, sp + 1) {
            Some((k, v, j)) => {
                let c = sp_end(s, j);
                if j <= c && c < s.len() && s[c] == '}' {
                    Some((k, v, c + 1))
                } else {
                    None
                }
            },
            None => None,
        }
    } else {
        None
    }
}


proof fn lemma_alnum_end_ge(s: Seq<char>, i: int)
    requires
        0 <= i,
    ensures
        alnum_end(s, i) >= i,
    decreases s.len() - i,
{
    if 0 <= i < s.len() && is_alnum_char(s[i]) {
        lemma_alnum_end_ge(s, i + 1);
    }
}

fn singleton_attr(a: Attribute) -> (r: Vec<Attribute>)
    ensures
        attr_seq_view(r@) == seq![attr_view(a)],
{
    let ghost ga = a;
    let mut out: Vec<Attribute> = Vec::new();
    out.push(a);
    proof {
        assert(out@ =~= seq![ga]);
        assert(out@.drop_first() =~= Seq::<Attribute>::empty());
        assert(attr_seq_view(Seq::<Attribute>::empty()) =~= Seq::<AttributeV>::empty());
        assert(attr_seq_view(out@) =~= seq![attr_view(ga)]);
    }
    out
}

fn singleton_at(a: AttributeType) -> (r: Vec<AttributeType>)
    ensures
        at_seq_view(r@) == seq![at_view(a)],
{
    let ghost ga = a;
    let mut out: Vec<AttributeType> = Vec::new();
    out.push(a);
    proof {
        assert(out@ =~= seq![ga]);
        assert(out@.drop_first() =~= Seq::<AttributeType>::empty());
        assert(at_seq_view(Seq::<AttributeType>::empty()) =~= Seq::<AttributeTypeV>::empty());
        assert(at_seq_view(out@) =~= seq![at_view(ga)]);
    }
    out
}

fn prepend_string(v: String, rest: Vec<String>) -> (r: Vec<String>)
    ensures
        crate::text::strs_view(r@) == seq![v@] + crate::text::strs_view(rest@),
{
    let ghost gv = v;
    let ghost grest = rest@;
    let mut out = rest;
    out.insert(0, v);
    proof {
        assert(out@ =~= seq![gv] + grest);
        assert(out@.drop_first() =~= grest);
    }
    out
}

fn prepend_attr(a: Attribute, rest: Vec<Attribute>) -> (r: Vec<Attribute>)
    ensures
        attr_seq_view(r@) == seq![attr_view(a)] + attr_seq_view(rest@),
{
    let ghost ga = a;
    let ghost grest = rest@;
    let mut out = rest;
    out.insert(0, a);
    proof {
        assert(out@ =~= seq![ga] + grest);
        assert(out@.drop_first() =~= grest);
    }
    out
}

fn prepend_at(a: AttributeType, rest: Vec<AttributeType>) -> (r: Vec<AttributeType>)
    ensures
        at_seq_view(r@) == seq![at_view(a)] + at_seq_view(rest@),
{
    let ghost ga = a;
    let ghost grest = rest@;
    let mut out = rest;
    out.insert(0, a);
    proof {
        assert(out@ =~= seq![ga] + grest);
        assert(out@.drop_first() =~= grest);
    }
    out
}

fn prepend_block(b: TerraformBlock, rest: Vec<TerraformBlock>) -> (r: Vec<TerraformBlock>)
    ensures
        crate::model::tfb_seq_view(r@) == seq![tfb_view(b)] + crate::model::tfb_seq_view(rest@),
{
    let ghost gb = b;
    let ghost grest = rest@;
    let mut out = rest;
    out.insert(0, b);
    proof {
        assert(out@ =~= seq![gb] + grest);
        assert(out@.drop_first() =~= grest);
    }
    out
}

/// Assemble a block from its leading identifiers and parsed attributes.
pub fn build_block(ids: &Vec<String>, attrs: Vec<Attribute>) -> (r: Option<TerraformBlock>)
    ensures
        match (r, spec_build_block(crate::text::strs_view(ids@), attr_seq_view(attrs@))) {
            (Some(b), Some(sb)) => b@ == sb,
            (None, None) => true,
            _ => false,
        },
{
    proof {
        crate::text::lemma_strs_view(ids@);
    }
    if ids.len() == 1 {
        let id0 = &ids[0];
        if crate::text::str_eq(id0.as_str(), "resource") || crate::text::str_eq(
            id0.as_str(),
            "provider",
        ) || crate::text::str_eq(id0.as_str(), "data") || crate::text::str_eq(
            id0.as_str(),
            "terraform",
        ) || crate::text::str_eq(id0.as_str(), "variable") {
            Some(
                TerraformBlock::NoIdentifiers(
                    TerraformBlockWithNoIdentifiers { block_type: id0.clone(), attributes: attrs },
                ),
            )
        } else {
            Some(
                TerraformBlock::WithOneIdentifier(
                    TerraformBlockWithOneIdentifier {
                        block_type: crate::text::lit_string("inner"),
                        first_identifier: id0.clone(),
                        attributes: attrs,
                    },
                ),
            )
        }
    } else if ids.len() == 2 {
        Some(
            TerraformBlock::WithOneIdentifier(
                TerraformBlockWithOneIdentifier {
                    block_type: ids[0].clone(),
                    first_identifier: ids[1].clone(),
                    attributes: attrs,
                },
            ),
        )
    } else if ids.len() == 3 {
        Some(
            TerraformBlock::WithTwoIdentifiers(
                TerraformBlockWithTwoIdentifiers {
                    block_type: ids[0].clone(),
                    first_identifier: ids[1].clone(),
                    second_identifier: ids[2].clone(),
                    attributes: attrs,
                },
            ),
        )
    } else {
        None
    }
}

fn ident_list_at(s: &Vec<char>, i: usize) -> (r: (Vec<String>, usize))
    requires
        i <= s@.len(),
    ensures
        (crate::text::strs_view(r.0@), r.1 as int) == spec_ident_list(s@, i as int),
        i <= r.1 <= s@.len(),
    decreases s@.len() - i,
{
    let sp = skip_sp(s, i);
    if sp < s.len() && alnum_char(s[sp]) {
        let e = scan_alnum(s, sp);
        proof {
            lemma_alnum_end_ge(s@, sp + 1);
            assert(alnum_end(s@, sp as int) == alnum_end(s@, sp + 1));
        }
        let tok = crate::json_parser::copy_range(s, sp, e);
        let (rest, p) = ident_list_at(s, e);
        let out = prepend_string(tok, rest);
        (out, p)
    } else {
        match crate::json_parser::quoted(s, sp) {
            Some((t, j)) => {
                let (rest, p) = ident_list_at(s, j);
                let out = prepend_string(t, rest);
                (out, p)
            },
            None => {
                let out: Vec<String> = Vec::new();
                proof {
                    assert(crate::text::strs_view(out@) =~= spec_ident_list(s@, i as int).0);
                }
                (out, i)
            },
        }
    }
}

fn identifiers_at(s: &Vec<char>, i: usize) -> (r: (Vec<String>, usize))
    requires
        i <= s@.len(),
    ensures
        (crate::text::strs_view(r.0@), r.1 as int) == spec_identifiers(s@, i as int),
        i <= r.1 <= s@.len(),
{
    let w = skip_ws(s, i);
    let (ids, p) = ident_list_at(s, w);
    let q = skip_sp(s, p);
    (ids, q)
}

/// Parse one attribute value at `i`.
pub fn block_value_at(s: &Vec<char>, i: usize) -> (r: Option<(AttributeType, usize)>)
    requires
        i <= s@.len(),
        s@.len() < 0x1000_0000_0000,
    ensures
        match (r, spec_block_value(s@, i as int)) {
            (Some((v, j)), Some((sv, sj))) => v@ == sv && j == sj && i <= j <= s@.len(),
            (None, None) => true,
            _ => false,
        },
    decreases s@.len() - i, 2int,
{
    let sp = skip_sp(s, i);
    if let Some((t, p)) = parse_templated(s, sp) {
        return Some(
            (AttributeType::TemplatedString(TemplateString::Variable(t)), p),
        );
    }
    if let Some((v, p)) = parse_serialised(s, sp) {
        return Some((AttributeType::Json(v), p));
    }
    proof {
        reveal_strlit("true");
        reveal_strlit("false");
        assert(s.len() == s@.len());
    }
    let t_true = str_to_chars("true");
    let t_false = str_to_chars("false");
    if check_tag(s, sp, &t_true) {
        return Some((AttributeType::Boolean(true), sp + 4));
    }
    if check_tag(s, sp, &t_false) {
        return Some((AttributeType::Boolean(false), sp + 5));
    }
    if let Some((n, p)) = crate::json_parser::parse_number(s, sp) {
        return Some((AttributeType::Num(n), p));
    }
    if let Some((attrs, p)) = basic_block_at(s, sp) {
        return Some((AttributeType::Block(attrs), p));
    }
    if let Some((b, p)) = tf_block_at(s, sp) {
        return Some((AttributeType::TFBlock(b), p));
    }
    match crate::json_parser::quoted(s, sp) {
        Some((t, p)) => {
            return Some((AttributeType::Str(t), p));
        },
        None => {},
    }
    if let Some((elems, p)) = cfg_array_at(s, sp) {
        return Some((AttributeType::Array(elems), p));
    }
    if let Some((v, p)) = parse_heredoc(s, sp) {
        return Some((AttributeType::Json(v), p));
    }
    None
}

/// Parse one `key = value` pair at `i`.
pub fn cfg_key_value_at(s: &Vec<char>, i: usize) -> (r: Option<(String, AttributeType, usize)>)
    requires
        i <= s@.len(),
        s@.len() < 0x1000_0000_0000,
    ensures
        match (r, spec_cfg_key_value(s@, i as int)) {
            (Some((k, v, j)), Some((sk, sv, sj))) => k@ == sk && v@ == sv && j == sj && i <= j
                <= s@.len(),
            (None, None) => true,
            _ => false,
        },
    decreases s@.len() - i, 3int,
{
    let w = skip_ws(s, i);
    // quoted-key form
    let sp = skip_sp(s, w);
    if sp < s.len() && s[sp] == '"' {
        let e = scan_cfg_ident(s, sp + 1);
        if e < s.len() && s[e] == '"' {
            let c = skip_sp(s, e + 1);
            if c < s.len() && s[c] == '=' {
                match block_value_at(s, c + 1) {
                    Some((v, p)) => {
                        return Some((crate::json_parser::copy_range(s, sp + 1, e), v, p));
                    },
                    None => {},
                }
            }
        }
    }
    proof {
        assert(spec_quoted_key_value(s@, i as int, ws_end(s@, i as int)) is None ==> true);
    }
    if spec_qkv_none(s, i, w, sp) {
        let e = scan_cfg_ident(s, sp);
        match block_value_at(s, e) {
            Some((v, p)) => Some((crate::json_parser::copy_range(s, sp, e), v, p)),
            None => {
                let c = skip_sp(s, e);
                if c < s.len() && s[c] == '=' {
                    match block_value_at(s, c + 1) {
                        Some((v, p)) => Some((crate::json_parser::copy_range(s, sp, e), v, p)),
                        None => None,
                    }
                } else {
                    None
                }
            },
        }
    } else {
        None
    }
}

/// Decide whether the quoted-key alternative failed, so the bare-key
/// alternatives apply.
fn spec_qkv_none(s: &Vec<char>, i: usize, w: usize, sp: usize) -> (r: bool)
    requires
        i <= s@.len(),
        s@.len() < 0x1000_0000_0000,
        w == ws_end(s@, i as int),
        sp == sp_end(s@, w as int),
        i <= w <= sp <= s@.len(),
    ensures
        r == (spec_quoted_key_value(s@, i as int, w as int) is None),
    decreases s@.len() - i, 2int,
{
    if sp < s.len() && s[sp] == '"' {
        let e = scan_cfg_ident(s, sp + 1);
        if e < s.len() && s[e] == '"' {
            let c = skip_sp(s, e + 1);
            if c < s.len() && s[c] == '=' {
                match block_value_at(s, c + 1) {
                    Some(_) => false,
                    None => true,
                }
            } else {
                true
            }
        } else {
            true
        }
    } else {
        true
    }
}

/// Parse the newline-separated attributes of a block body.
pub fn sep_attrs_at(s: &Vec<char>, i: usize) -> (r: (Vec<Attribute>, usize))
    requires
        i <= s@.len(),
        s@.len() < 0x1000_0000_0000,
    ensures
        (attr_seq_view(r.0@), r.1 as int) == spec_sep_attrs(s@, i as int),
        i <= r.1 <= s@.len(),
    decreases s@.len() - i, 4int,
{
    match cfg_key_value_at(s, i) {
        None => {
            let out: Vec<Attribute> = Vec::new();
            proof {
                assert(attr_seq_view(out@) =~= spec_sep_attrs(s@, i as int).0);
            }
            (out, i)
        },
        Some((k, v, j)) => {
            let ghost gk = k@;
            let ghost gv = v@;
            if j == i {
                // a pair that consumed nothing cannot recur
                let out = singleton_attr(Attribute { key: k, value: v });
                return (out, j);
            }
            let sp = skip_sp(s, j);
            let mut more = false;
            if sp < s.len() && s[sp] == '\n' {
                if cfg_key_value_at(s, sp + 1).is_some() {
                    more = true;
                }
            }
            if more {
                let (rest, e) = sep_attrs_at(s, sp + 1);
                let out = prepend_attr(Attribute { key: k, value: v }, rest);
                (out, e)
            } else {
                let out = singleton_attr(Attribute { key: k, value: v });
                (out, j)
            }
        },
    }
}

/// Parse a braced block body at `i`.
pub fn basic_block_at(s: &Vec<char>, i: usize) -> (r: Option<(Vec<Attribute>, usize)>)
    requires
        i <= s@.len(),
        s@.len() < 0x1000_0000_0000,
    ensures
        match (r, spec_basic_block(s@, i as int)) {
            (Some((attrs, j)), Some((sa, sj))) => attr_seq_view(attrs@) == sa && j == sj && i < j
                <= s@.len(),
            (None, None) => true,
            _ => false,
        },
    decreases s@.len() - i, 0int,
{
    if i < s.len() && s[i] == '{' {
        let w = skip_ws(s, i + 1);
        let (attrs, j) = sep_attrs_at(s, w);
        let c = skip_ws(s, j);
        if c < s.len() && s[c] == '}' {
            Some((attrs, c + 1))
        } else {
            None
        }
    } else {
        None
    }
}

/// Parse a named block at `i`: comments, identifiers, body.
pub fn tf_block_at(s: &Vec<char>, i: usize) -> (r: Option<(TerraformBlock, usize)>)
    requires
        i <= s@.len(),
        s@.len() < 0x1000_0000_0000,
    ensures
        match (r, spec_tf_block(s@, i as int)) {
            (Some((b, j)), Some((sb, sj))) => b@ == sb && j == sj && i < j <= s@.len(),
            (None, None) => true,
            _ => false,
        },
    decreases s@.len() - i, 1int,
{
    match skip_cabl(s, i) {
        None => None,
        Some(p) => {
            let (ids, q) = identifiers_at(s, p);
            match basic_block_at(s, q) {
                Some((attrs, r)) => match build_block(&ids, attrs) {
                    Some(b) => Some((b, r)),
                    None => None,
                },
                None => None,
            }
        },
    }
}

/// Parse a bracketed array of values at `i`.
pub fn cfg_array_at(s: &Vec<char>, i: usize) -> (r: Option<(Vec<AttributeType>, usize)>)
    requires
        i <= s@.len(),
        s@.len() < 0x1000_0000_0000,
    ensures
        match (r, spec_cfg_array(s@, i as int)) {
            (Some((elems, j)), Some((se, sj))) => at_seq_view(elems@) == se && j == sj && i < j
                <= s@.len(),
            (None, None) => true,
            _ => false,
        },
    decreases s@.len() - i, 1int,
{
    if i < s.len() && s[i] == '[' {
        let w = skip_ws(s, i + 1);
        let (elems, j) = cfg_elems_at(s, w);
        let c = skip_ws(s, j);
        if c < s.len() && s[c] == ']' {
            Some((elems, c + 1))
        } else {
            None
        }
    } else {
        None
    }
}

fn cfg_elems_at(s: &Vec<char>, i: usize) -> (r: (Vec<AttributeType>, usize))
    requires
        i <= s@.len(),
        s@.len() < 0x1000_0000_0000,
    ensures
        (at_seq_view(r.0@), r.1 as int) == spec_cfg_elems(s@, i as int),
        i <= r.1 <= s@.len(),
    decreases s@.len() - i, 3int,
{
    let w = skip_ws(s, i);
    match block_value_at(s, w) {
        None => {
            let out: Vec<AttributeType> = Vec::new();
            proof {
                assert(at_seq_view(out@) =~= spec_cfg_elems(s@, i as int).0);
            }
            (out, i)
        },
        Some((v, j)) => {
            let ghost gv = v@;
            if j <= w {
                let out = singleton_at(v);
                return (out, j);
            }
            let sp = skip_sp(s, j);
            let mut more = false;
            if sp < s.len() && s[sp] == ',' {
                let w2 = skip_ws(s, sp + 1);
                if block_value_at(s, w2).is_some() {
                    more = true;
                }
            }
            if more {
                let (rest, e) = cfg_elems_at(s, sp + 1);
                let out = prepend_at(v, rest);
                (out, e)
            } else {
                let out = singleton_at(v);
                (out, j)
            }
        },
    }
}

/// Parse the top-level blocks of a configuration document starting at `i`.
pub fn root_at(s: &Vec<char>, i: usize) -> (r: (Vec<TerraformBlock>, usize))
    requires
        i <= s@.len(),
        s@.len() < 0x1000_0000_0000,
    ensures
        (crate::model::tfb_seq_view(r.0@), r.1 as int) == spec_root(s@, i as int),
        i <= r.1 <= s@.len(),
    decreases s@.len() - i, 2int,
{
    match tf_block_at(s, i) {
        None => {
            let out: Vec<TerraformBlock> = Vec::new();
            proof {
                assert(crate::model::tfb_seq_view(out@) =~= spec_root(s@, i as int).0);
            }
            (out, i)
        },
        Some((b, j)) => {
            let (rest, e) = root_at(s, j);
            let out = prepend_block(b, rest);
            (out, e)
        },
    }
}

/// Parse a whole configuration document: zero or more top-level blocks.
/// Returns the blocks and the position where parsing stopped.
pub fn root(input: &str) -> (r: (Vec<TerraformBlock>, usize))
    requires
        input@.len() < 0x1000_0000_0000,
    ensures
        (crate::model::tfb_seq_view(r.0@), r.1 as int) == spec_root(input@, 0),
{
    let chars = str_to_chars(input);
    root_at(&chars, 0)
}

/// Parse a one-pair inline map, as in `{ "key" = "value" }`.
pub fn inline_block(input: &str) -> (r: Option<(String, AttributeType, usize)>)
    requires
        input@.len() < 0x1000_0000_0000,
    ensures
        match (r, spec_inline_block(input@, 0)) {
            (Some((k, v, j)), Some((sk, sv, sj))) => k@ == sk && v@ == sv && j == sj,
            (None, None) => true,
            _ => false,
        },
{
    let s = str_to_chars(input);
    let sp = skip_sp(&s, 0);
    if sp < s.len() && s[sp] == '{' {
        match cfg_key_value_at(&s, sp + 1) {
            Some((k, v, j)) => {
                let c = skip_sp(&s, j);
                if c < s.len() && s[c] == '}' {
                    Some((k, v, c + 1))
                } else {
                    None
                }
            },
            None => None,
        }
    } else {
        None
    }
}

/// Parse a quoted string at the start of `input`: the content and the
/// position after the closing quote.
pub fn escaped_string(input: &str) -> (r: Option<(String, usize)>)
    ensures
        match (r, spec_quoted(input@, 0)) {
            (Some((t, j)), Some((st, sj))) => t@ == st && j == sj,
            (None, None) => true,
            _ => false,
        },
{
    let s = str_to_chars(input);
    crate::json_parser::quoted(&s, 0)
}

} // verus!
