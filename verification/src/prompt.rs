//! Narrowing a preprocessed prompt in tag form: keep, per selected file,
//! only the requested parts, and drop everything else. The text is
//! tokenized with the same scan as a patch response, filtered by the
//! selection, and serialized back to tag form with entities re-encoded.

use vstd::prelude::*;

use crate::errors::AppError;
use crate::models::{FilePartIds, SpecFilePartIds};
use crate::parser::{
    file_tag, id_attr, id_or_sentinel, parse_usize, part_tag, path_attr, spec_tokenize, tokenize,
    SpecToken, Token,
};
use crate::selector::{find_selection, spec_lookup};

verus! {

/// The escape of one character, as it is written into tag-form text or an
/// attribute value.
pub open spec fn esc_char(c: char) -> Seq<char> {
    if c == '&' {
        seq!['&', 'a', 'm', 'p', ';']
    } else if c == '<' {
        seq!['&', 'l', 't', ';']
    } else if c == '>' {
        seq!['&', 'g', 't', ';']
    } else if c == '\'' {
        seq!['&', 'a', 'p', 'o', 's', ';']
    } else if c == '"' {
        seq!['&', 'q', 'u', 'o', 't', ';']
    } else {
        seq![c]
    }
}

/// `s` with the five standard characters encoded as entities.
pub open spec fn spec_escape(s: Seq<char>) -> Seq<char>
    decreases s.len(),
{
    if s.len() == 0 {
        Seq::empty()
    } else {
        esc_char(s[0]) + spec_escape(s.drop_first())
    }
}

/// A start tag written back to text: name, then each attribute as
/// `name="value"` with the value escaped.
pub open spec fn spec_write_start(name: Seq<char>, attrs: Seq<(Seq<char>, Seq<char>)>) -> Seq<
    char,
>
    decreases attrs.len(),
{
    if attrs.len() == 0 {
        seq!['>']
    } else {
        seq![' '] + attrs[0].0 + seq!['=', '"'] + spec_escape(attrs[0].1) + seq!['"']
            + spec_write_start(name, attrs.drop_first())
    }
}

/// A start tag written back to text, opening bracket and name included.
pub open spec fn spec_start_text(name: Seq<char>, attrs: Seq<(Seq<char>, Seq<char>)>) -> Seq<
    char,
> {
    seq!['<'] + name + spec_write_start(name, attrs)
}

/// An end tag written back to text.
pub open spec fn spec_end_text(name: Seq<char>) -> Seq<char> {
    seq!['<', '/'] + name + seq!['>']
}

/// The filter's state: the part ids of the currently selected file, whether
/// the scan stands inside a requested part, and the text written so far.
#[verifier::ext_equal]
pub struct SpecFilterState {
    pub selected: Option<Seq<nat>>,
    pub in_part: bool,
    pub out: Seq<char>,
}

/// The state before any token.
pub open spec fn filter_init() -> SpecFilterState {
    SpecFilterState { selected: None, in_part: false, out: Seq::empty() }
}

/// A file tag's attributes applied to the filter: each `path` attribute
/// whose value the selection mentions selects the file and writes the tag
/// through.
pub open spec fn spec_filter_file_attrs(
    st: SpecFilterState,
    sel: Seq<SpecFilePartIds>,
    name: Seq<char>,
    attrs: Seq<(Seq<char>, Seq<char>)>,
    k: int,
) -> SpecFilterState
    decreases attrs.len() - k,
{
    if k < 0 || k >= attrs.len() {
        st
    } else {
        let st1 = if attrs[k].0 == path_attr() && (spec_lookup(sel, attrs[k].1) is Some) {
            SpecFilterState {
                selected: Some(spec_lookup(sel, attrs[k].1).unwrap()),
                in_part: st.in_part,
                out: st.out + spec_start_text(name, attrs),
            }
        } else {
            st
        };
        spec_filter_file_attrs(st1, sel, name, attrs, k + 1)
    }
}

/// A part tag's attributes applied to the filter: each `id` attribute whose
/// id the selected file requests writes the tag through and opens the part.
pub open spec fn spec_filter_part_attrs(
    st: SpecFilterState,
    ids: Seq<nat>,
    name: Seq<char>,
    attrs: Seq<(Seq<char>, Seq<char>)>,
    k: int,
) -> SpecFilterState
    decreases attrs.len() - k,
{
    if k < 0 || k >= attrs.len() {
        st
    } else {
        let st1 = if attrs[k].0 == id_attr() && ids.contains(id_or_sentinel(attrs[k].1)) {
            SpecFilterState {
                selected: st.selected,
                in_part: true,
                out: st.out + spec_start_text(name, attrs),
            }
        } else {
            st
        };
        spec_filter_part_attrs(st1, ids, name, attrs, k + 1)
    }
}

/// One token applied to the filter.
pub open spec fn spec_filter_step(
    st: SpecFilterState,
    sel: Seq<SpecFilePartIds>,
    t: SpecToken,
) -> SpecFilterState {
    match t {
        SpecToken::Start { name, attrs } => {
            if name == file_tag() {
                spec_filter_file_attrs(
                    SpecFilterState { selected: None, in_part: st.in_part, out: st.out },
                    sel,
                    name,
                    attrs,
                    0,
                )
            } else if name == part_tag() {
                match st.selected {
                    Some(ids) => spec_filter_part_attrs(st, ids, name, attrs, 0),
                    None => st,
                }
            } else {
                st
            }
        },
        SpecToken::Text { content } => {
            if st.in_part {
                SpecFilterState {
                    selected: st.selected,
                    in_part: st.in_part,
                    out: st.out + spec_escape(content),
                }
            } else {
                st
            }
        },
        SpecToken::End { name } => {
            if name == file_tag() {
                if st.selected is Some {
                    SpecFilterState {
                        selected: None,
                        in_part: st.in_part,
                        out: st.out + spec_end_text(name),
                    }
                } else {
                    st
                }
            } else if name == part_tag() {
                if st.in_part {
                    SpecFilterState {
                        selected: st.selected,
                        in_part: false,
                        out: st.out + spec_end_text(name),
                    }
                } else {
                    st
                }
            } else {
                st
            }
        },
        SpecToken::Skip => st,
    }
}

/// The filter's state after the first `n` tokens.
pub open spec fn spec_filter_fold(
    tokens: Seq<SpecToken>,
    sel: Seq<SpecFilePartIds>,
    n: int,
) -> SpecFilterState
    decreases n,
{
    if n <= 0 {
        filter_init()
    } else {
        spec_filter_step(spec_filter_fold(tokens, sel, n - 1), sel, tokens[n - 1])
    }
}

/// What filtering a preprocessed prompt yields: the narrowed tag text when
/// the prompt tokenizes, nothing otherwise.
pub open spec fn spec_filter_prompt(s: Seq<char>, sel: Seq<SpecFilePartIds>) -> Option<Seq<char>> {
    match spec_tokenize(s) {
        None => None,
        Some(toks) => Some(spec_filter_fold(toks, sel, toks.len() as int).out),
    }
}

/// `s` with the five standard characters encoded as entities.
fn escape_text(s: &str) -> (r: String)
    ensures
        r@ == spec_escape(s@),
{
    let n = s.unicode_len();
    let mut out = String::new();
    let mut i: usize = 0;
    proof {
        assert(out@ =~= spec_escape(s@.take(0)));
    }
    while i < n
        invariant
            i <= n,
            n == s@.len(),
            out@ == spec_escape(s@.take(i as int)),
        decreases n - i,
    {
        let c = s.get_char(i);
        proof {
            reveal_strlit("&amp;");
            reveal_strlit("&lt;");
            reveal_strlit("&gt;");
            reveal_strlit("&apos;");
            reveal_strlit("&quot;");
        }
        if c == '&' {
            out.append("&amp;");
        } else if c == '<' {
            out.append("&lt;");
        } else if c == '>' {
            out.append("&gt;");
        } else if c == '\'' {
            out.append("&apos;");
        } else if c == '"' {
            out.append("&quot;");
        } else {
            out.append(s.substring_char(i, i + 1));
        }
        proof {
            lemma_escape_snoc(s@, i as int);
            assert(s@.subrange(i as int, i + 1) =~= seq![s@[i as int]]);
            assert(out@ =~= spec_escape(s@.take(i + 1)));
        }
        i = i + 1;
    }
    proof {
        assert(s@.take(n as int) =~= s@);
    }
    out
}

/// Escaping one more character appends that character's escape.
proof fn lemma_escape_snoc(s: Seq<char>, i: int)
    requires
        0 <= i < s.len(),
    ensures
        spec_escape(s.take(i + 1)) == spec_escape(s.take(i)) + esc_char(s[i]),
    decreases i,
{
    if i == 0 {
        assert(s.take(1) =~= seq![s[0]]);
        assert(s.take(1).drop_first() =~= Seq::<char>::empty());
        assert(spec_escape(Seq::<char>::empty()) =~= Seq::<char>::empty());
        assert(spec_escape(s.take(0)) =~= Seq::<char>::empty());
        assert(spec_escape(s.take(1)) =~= esc_char(s[0]) + spec_escape(Seq::<char>::empty()));
        assert(spec_escape(s.take(1)) =~= esc_char(s[0]));
    } else {
        lemma_escape_snoc(s.drop_first(), i - 1);
        assert(s.take(i + 1).drop_first() =~= s.drop_first().take(i));
        assert(s.take(i).drop_first() =~= s.drop_first().take(i - 1));
        assert(s.take(i + 1)[0] == s[0] && s.take(i)[0] == s[0]);
        assert(s.drop_first()[i - 1] == s[i]);
        assert(spec_escape(s.take(i + 1)) == esc_char(s[0]) + spec_escape(s.drop_first().take(i)));
        assert(spec_escape(s.take(i)) == esc_char(s[0]) + spec_escape(s.drop_first().take(i - 1)));
        assert(esc_char(s[0]) + (spec_escape(s.drop_first().take(i - 1)) + esc_char(s[i])) =~= (
        esc_char(s[0]) + spec_escape(s.drop_first().take(i - 1))) + esc_char(s[i]));
    }
}

/// A start tag written back to text.
fn write_start(name: &String, attrs: &Vec<(String, String)>) -> (r: String)
    ensures
        r@ == spec_start_text(name@, attrs.deep_view()),
{
    let ghost av = attrs.deep_view();
    proof {
        reveal_strlit("<");
        reveal_strlit(">");
        reveal_strlit(" ");
        reveal_strlit("=\"");
        reveal_strlit("\"");
    }
    let mut r = String::from_str("<");
    r.append(name.as_str());
    let mut k: usize = 0;
    proof {
        assert(av.skip(0) =~= av);
        assert(r@ =~= seq!['<'] + name@);
    }
    while k < attrs.len()
        invariant
            k <= attrs@.len(),
            av == attrs.deep_view(),
            av.len() == attrs@.len(),
            r@ + spec_write_start(name@, av.skip(k as int)) =~= spec_start_text(name@, av),
        decreases attrs@.len() - k,
    {
        proof {
            reveal_strlit(" ");
            reveal_strlit("=\"");
            reveal_strlit("\"");
            assert(av.skip(k as int)[0] == av[k as int]);
            assert(av[k as int].0 == attrs@[k as int].0@);
            assert(av[k as int].1 == attrs@[k as int].1@);
            assert(av.skip(k as int).drop_first() =~= av.skip(k + 1));
        }
        r.append(" ");
        r.append(attrs[k].0.as_str());
        r.append("=\"");
        let v = escape_text(attrs[k].1.as_str());
        r.append(v.as_str());
        r.append("\"");
        proof {
            assert(r@ + spec_write_start(name@, av.skip(k + 1)) =~= spec_start_text(name@, av));
        }
        k = k + 1;
    }
    proof {
        assert(av.skip(attrs@.len() as int) =~= Seq::<(Seq<char>, Seq<char>)>::empty());
    }
    r.append(">");
    proof {
        assert(r@ =~= spec_start_text(name@, av));
    }
    r
}

/// An end tag written back to text.
fn write_end(name: &String) -> (r: String)
    ensures
        r@ == spec_end_text(name@),
{
    proof {
        reveal_strlit("</");
        reveal_strlit(">");
    }
    let mut r = String::from_str("</");
    r.append(name.as_str());
    r.append(">");
    proof {
        assert(r@ =~= spec_end_text(name@));
    }
    r
}

/// Narrows a preprocessed prompt to the selected parts: per file named by
/// the selection, the file tag and the requested parts are written through
/// (entities re-encoded); every other file, part and stray fragment is
/// dropped. Text whose structure never closes fails with the format error.
pub fn filter_preprocessed_prompt(preprocessed_prompt: &str, parts_to_edit: &Vec<FilePartIds>) -> (r:
    Result<String, AppError>)
    ensures
        (r matches Ok(out) ==> spec_filter_prompt(preprocessed_prompt@, parts_to_edit.deep_view())
            == Some(out@)),
        (r matches Err(e) ==> e == AppError::PatchFormatError && (spec_filter_prompt(
            preprocessed_prompt@,
            parts_to_edit.deep_view(),
        ) is None)),
{
    let ghost sel = parts_to_edit.deep_view();
    let toks = match tokenize(preprocessed_prompt) {
        Ok(t) => t,
        Err(e) => {
            return Err(e);
        },
    };
    let ghost tv = toks.deep_view();
    let mut selected: Option<Vec<usize>> = None;
    let mut in_part = false;
    let mut out = String::new();
    let mut k: usize = 0;
    proof {
        assert((SpecFilterState {
            selected: match selected {
                Some(ref ids) => Some(ids@.map_values(|x: usize| x as nat)),
                None => None,
            },
            in_part: in_part,
            out: out@,
        }) =~= filter_init());
    }
    while k < toks.len()
        invariant
            k <= toks@.len(),
            tv == toks.deep_view(),
            sel == parts_to_edit.deep_view(),
            tv.len() == toks@.len(),
            (SpecFilterState {
                selected: match selected {
                    Some(ref ids) => Some(ids@.map_values(|x: usize| x as nat)),
                    None => None,
                },
                in_part: in_part,
                out: out@,
            }) == spec_filter_fold(tv, sel, k as int),
        decreases toks@.len() - k,
    {
        let ghost st0 = spec_filter_fold(tv, sel, k as int);
        proof {
            assert(tv[k as int] == toks@[k as int].deep_view());
            reveal_strlit("file");
            reveal_strlit("part");
            reveal_strlit("path");
            reveal_strlit("id");
            assert("file"@ =~= file_tag());
            assert("part"@ =~= part_tag());
            assert("path"@ =~= path_attr());
            assert("id"@ =~= id_attr());
        }
        let file_w = String::from_str("file");
        let part_w = String::from_str("part");
        let path_w = String::from_str("path");
        let id_w = String::from_str("id");
        match &toks[k] {
            Token::Start { name, attrs } => {
                if name.eq(&file_w) {
                    selected = None;
                    let ghost attrsv = attrs.deep_view();
                    let mut a: usize = 0;
                    while a < attrs.len()
                        invariant
                            a <= attrs@.len(),
                            attrsv == attrs.deep_view(),
                            attrsv.len() == attrs@.len(),
                            sel == parts_to_edit.deep_view(),
                            path_w@ == path_attr(),
                            in_part == st0.in_part,
                            spec_filter_file_attrs(
                                (SpecFilterState {
                                    selected: match selected {
                                        Some(ref ids) => Some(
                                            ids@.map_values(|x: usize| x as nat),
                                        ),
                                        None => None,
                                    },
                                    in_part: in_part,
                                    out: out@,
                                }),
                                sel,
                                name@,
                                attrsv,
                                a as int,
                            ) == spec_filter_file_attrs(
                                (SpecFilterState {
                                    selected: None,
                                    in_part: st0.in_part,
                                    out: st0.out,
                                }),
                                sel,
                                name@,
                                attrsv,
                                0,
                            ),
                        decreases attrs@.len() - a,
                    {
                        proof {
                            assert(attrsv[a as int].0 == attrs@[a as int].0@);
                            assert(attrsv[a as int].1 == attrs@[a as int].1@);
                        }
                        let ghost stpre = SpecFilterState {
                            selected: match selected {
                                Some(ref ids) => Some(ids@.map_values(|x: usize| x as nat)),
                                None => None,
                            },
                            in_part: in_part,
                            out: out@,
                        };
                        if attrs[a].0.eq(&path_w) {
                            match find_selection(parts_to_edit, &attrs[a].1) {
                                Some(j) => {
                                    selected = Some(parts_to_edit[j].parts.clone());
                                    let piece = write_start(name, attrs);
                                    out.append(piece.as_str());
                                    proof {
                                        assert((SpecFilterState {
                                            selected: match selected {
                                                Some(ref ids) => Some(
                                                    ids@.map_values(|x: usize| x as nat),
                                                ),
                                                None => None,
                                            },
                                            in_part: in_part,
                                            out: out@,
                                        }) =~= (SpecFilterState {
                                            selected: Some(
                                                spec_lookup(sel, attrsv[a as int].1).unwrap(),
                                            ),
                                            in_part: stpre.in_part,
                                            out: stpre.out + spec_start_text(name@, attrsv),
                                        }));
                                    }
                                },
                                None => {},
                            }
                        }
                        a = a + 1;
                    }
                    proof {
                        let cur = SpecFilterState {
                            selected: match selected {
                                Some(ref ids) => Some(ids@.map_values(|x: usize| x as nat)),
                                None => None,
                            },
                            in_part: in_part,
                            out: out@,
                        };
                        assert(spec_filter_file_attrs(cur, sel, name@, attrsv, attrsv.len() as int)
                            == cur);
                        assert(cur == spec_filter_step(st0, sel, tv[k as int]));
                    }
                } else if name.eq(&part_w) {
                    match &selected {
                        Some(ids) => {
                            let ghost idsn = ids@.map_values(|x: usize| x as nat);
                            proof {
                                assert(idsn =~= st0.selected.unwrap());
                            }
                            let ghost attrsv = attrs.deep_view();
                            let mut a: usize = 0;
                            while a < attrs.len()
                                invariant
                                    a <= attrs@.len(),
                                    attrsv == attrs.deep_view(),
                                    attrsv.len() == attrs@.len(),
                                    id_w@ == id_attr(),
                                    idsn == ids@.map_values(|x: usize| x as nat),
                                    spec_filter_part_attrs(
                                        (SpecFilterState {
                                            selected: Some(idsn),
                                            in_part: in_part,
                                            out: out@,
                                        }),
                                        idsn,
                                        name@,
                                        attrsv,
                                        a as int,
                                    ) == spec_filter_part_attrs(st0, idsn, name@, attrsv, 0),
                                decreases attrs@.len() - a,
                            {
                                proof {
                                    assert(attrsv[a as int].0 == attrs@[a as int].0@);
                                    assert(attrsv[a as int].1 == attrs@[a as int].1@);
                                }
                                let ghost stpre = SpecFilterState {
                                    selected: Some(idsn),
                                    in_part: in_part,
                                    out: out@,
                                };
                                if attrs[a].0.eq(&id_w) {
                                    let id = match parse_usize(attrs[a].1.as_str()) {
                                        Some(x) => x,
                                        None => 0,
                                    };
                                    proof {
                                        assert(id as nat == id_or_sentinel(attrsv[a as int].1));
                                    }
                                    if contains_usize(ids, id) {
                                        let piece = write_start(name, attrs);
                                        out.append(piece.as_str());
                                        in_part = true;
                                        proof {
                                            assert((SpecFilterState {
                                                selected: Some(idsn),
                                                in_part: in_part,
                                                out: out@,
                                            }) =~= (SpecFilterState {
                                                selected: stpre.selected,
                                                in_part: true,
                                                out: stpre.out + spec_start_text(name@, attrsv),
                                            }));
                                        }
                                    }
                                }
                                a = a + 1;
                            }
                            proof {
                                let cur = SpecFilterState {
                                    selected: Some(idsn),
                                    in_part: in_part,
                                    out: out@,
                                };
                                assert(spec_filter_part_attrs(
                                    cur,
                                    idsn,
                                    name@,
                                    attrsv,
                                    attrsv.len() as int,
                                ) == cur);
                                assert(cur == spec_filter_step(st0, sel, tv[k as int]));
                            }
                        },
                        None => {},
                    }
                }
            },
            Token::Text { content } => {
                if in_part {
                    let piece = escape_text(content.as_str());
                    out.append(piece.as_str());
                }
            },
            Token::End { name } => {
                if name.eq(&file_w) {
                    match &selected {
                        Some(_) => {
                            let piece = write_end(name);
                            out.append(piece.as_str());
                            selected = None;
                        },
                        None => {},
                    }
                } else if name.eq(&part_w) {
                    if in_part {
                        let piece = write_end(name);
                        out.append(piece.as_str());
                        in_part = false;
                    }
                }
            },
            Token::Skip => {},
        }
        proof {
            assert((SpecFilterState {
                selected: match selected {
                    Some(ref ids) => Some(ids@.map_values(|x: usize| x as nat)),
                    None => None,
                },
                in_part: in_part,
                out: out@,
            }) =~= spec_filter_step(st0, sel, tv[k as int]));
        }
        k = k + 1;
    }
    Ok(out)
}

/// Whether `ids` contains `id`.
fn contains_usize(ids: &Vec<usize>, id: usize) -> (r: bool)
    ensures
        r == ids@.map_values(|x: usize| x as nat).contains(id as nat),
{
    let ghost idsn = ids@.map_values(|x: usize| x as nat);
    let mut k: usize = 0;
    while k < ids.len()
        invariant
            k <= ids@.len(),
            idsn == ids@.map_values(|x: usize| x as nat),
            forall|t: int| 0 <= t < k ==> idsn[t] != id as nat,
        decreases ids@.len() - k,
    {
        if ids[k] == id {
            assert(idsn[k as int] == id as nat);
            return true;
        }
        k = k + 1;
    }
    false
}

} // verus!
