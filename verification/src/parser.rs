//! The command-string parser: splits a raw command line on single
//! spaces, takes the first token as the program name, and folds the
//! remaining tokens into arguments, where a double-quoted segment
//! spanning one or more tokens becomes a single argument with its
//! internal spaces preserved and the surrounding quotes stripped.
//!
//! Two deliberate choices in the quote handling: a token that both
//! opens and closes a quote (a one-token quoted word) is emitted
//! immediately as a single argument with its quotes stripped, rather
//! than left dangling in an open segment; and an unbalanced quote (a
//! segment opened but never closed) drops the trailing buffer
//! silently.

use vstd::prelude::*;

verus! {

/// Tokens of `s` split on single spaces, scanning from position `i`
/// with the current token having started at position `start`. Two
/// adjacent spaces therefore yield an empty token, and the empty
/// string yields one empty token.
pub open spec fn split_from(s: Seq<char>, i: int, start: int) -> Seq<Seq<char>>
    decreases s.len() - i,
{
    if i >= s.len() {
        seq![s.subrange(start, s.len() as int)]
    } else if s[i] == ' ' {
        seq![s.subrange(start, i)] + split_from(s, i + 1, i + 1)
    } else {
        split_from(s, i + 1, start)
    }
}

/// Tokens of `s` split on single spaces; never empty.
pub open spec fn split_spaces(s: Seq<char>) -> Seq<Seq<char>> {
    split_from(s, 0, 0)
}

/// The token opens a quoted segment: its first character is `"`.
pub open spec fn starts_quote(t: Seq<char>) -> bool {
    t.len() > 0 && t[0] == '"'
}

/// The token closes a quoted segment: its last character is `"`.
pub open spec fn ends_quote(t: Seq<char>) -> bool {
    t.len() > 0 && t[t.len() - 1] == '"'
}

/// The token is a whole quoted argument on its own: at least two
/// characters, the first and the last both `"`.
pub open spec fn single_quoted(t: Seq<char>) -> bool {
    t.len() >= 2 && t[0] == '"' && t[t.len() - 1] == '"'
}

/// The arguments produced from `toks[k..]`. `buf` is `None` outside a
/// quoted segment; inside one it holds the segment's content so far,
/// with the opening quote already stripped. A buffer still open when
/// the tokens run out is dropped.
pub open spec fn args_from(toks: Seq<Seq<char>>, k: int, buf: Option<Seq<char>>) -> Seq<Seq<char>>
    decreases toks.len() - k,
{
    if k >= toks.len() {
        Seq::empty()
    } else {
        let t = toks[k];
        match buf {
            Option::None => {
                if single_quoted(t) {
                    seq![t.subrange(1, t.len() - 1)] + args_from(toks, k + 1, Option::None)
                } else if starts_quote(t) {
                    args_from(toks, k + 1, Option::Some(t.subrange(1, t.len() as int)))
                } else {
                    seq![t] + args_from(toks, k + 1, Option::None)
                }
            },
            Option::Some(b) => {
                if ends_quote(t) {
                    seq![b + seq![' '] + t.subrange(0, t.len() - 1)] + args_from(
                        toks,
                        k + 1,
                        Option::None,
                    )
                } else {
                    args_from(toks, k + 1, Option::Some(b + seq![' '] + t))
                }
            },
        }
    }
}

/// The program named by a raw command string: its first token.
pub open spec fn command_of(s: Seq<char>) -> Seq<char> {
    split_spaces(s)[0]
}

/// The argument list of a raw command string: the quote fold of every
/// token after the first.
pub open spec fn arguments_of(s: Seq<char>) -> Seq<Seq<char>> {
    args_from(split_spaces(s), 1, Option::None)
}

/// `s` with one trailing line feed removed, and then one trailing
/// carriage return, so that both `\n` and `\r\n` line endings go.
pub open spec fn spec_trim_line_ending(s: Seq<char>) -> Seq<char> {
    let t = if s.len() > 0 && s.last() == '\n' {
        s.drop_last()
    } else {
        s
    };
    if t.len() > 0 && t.last() == '\r' {
        t.drop_last()
    } else {
        t
    }
}

/// Strip one trailing `\n` or `\r\n` from a line read interactively.
pub fn trim_line_ending(s: &str) -> (r: String)
    ensures
        r@ == spec_trim_line_ending(s@),
{
    let n = s.unicode_len();
    let mut end = n;
    if end > 0 && s.get_char(end - 1) == '\n' {
        end = end - 1;
    }
    if end > 0 && s.get_char(end - 1) == '\r' {
        end = end - 1;
    }
    let r = String::from_str(s.substring_char(0, end));
    proof {
        assert(r@ =~= spec_trim_line_ending(s@));
    }
    r
}

/// Split `s` into its space-separated tokens.
pub fn split_tokens(s: &str) -> (tokens: Vec<String>)
    ensures
        tokens@.map_values(|t: String| t@) == split_spaces(s@),
        tokens@.len() >= 1,
{
    let n = s.unicode_len();
    let mut tokens: Vec<String> = Vec::new();
    let mut start: usize = 0;
    let mut i: usize = 0;
    while i < n
        invariant
            start <= i <= n,
            n == s@.len(),
            tokens@.map_values(|t: String| t@) + split_from(s@, i as int, start as int)
                == split_spaces(s@),
        decreases n - i,
    {
        let c = s.get_char(i);
        if c == ' ' {
            let ghost pre = tokens@.map_values(|t: String| t@);
            let tok = String::from_str(s.substring_char(start, i));
            tokens.push(tok);
            proof {
                assert(tokens@.map_values(|t: String| t@) =~= pre.push(
                    s@.subrange(start as int, i as int),
                ));
                assert(pre.push(s@.subrange(start as int, i as int)) + split_from(
                    s@,
                    i + 1,
                    i + 1,
                ) =~= pre + (seq![s@.subrange(start as int, i as int)] + split_from(
                    s@,
                    i + 1,
                    i + 1,
                )));
            }
            start = i + 1;
        }
        i = i + 1;
    }
    let ghost pre = tokens@.map_values(|t: String| t@);
    let tok = String::from_str(s.substring_char(start, n));
    tokens.push(tok);
    proof {
        assert(tokens@.map_values(|t: String| t@) =~= pre.push(
            s@.subrange(start as int, n as int),
        ));
        assert(pre.push(s@.subrange(start as int, n as int)) =~= pre + seq![
            s@.subrange(start as int, n as int),
        ]);
    }
    tokens
}

/// Fold the tokens from position `from` on into the argument list,
/// maintaining the quoted-segment buffer.
fn quote_fold(tokens: &Vec<String>, from: usize) -> (args: Vec<String>)
    requires
        from <= tokens@.len(),
    ensures
        args@.map_values(|a: String| a@) == args_from(
            tokens@.map_values(|t: String| t@),
            from as int,
            Option::None,
        ),
{
    let ghost toks = tokens@.map_values(|t: String| t@);
    let mut args: Vec<String> = Vec::new();
    let mut buf: String = String::new();
    let mut in_quotes: bool = false;
    let mut k: usize = from;
    while k < tokens.len()
        invariant
            from <= k <= tokens@.len(),
            toks == tokens@.map_values(|t: String| t@),
            !in_quotes ==> buf@ =~= Seq::<char>::empty(),
            args@.map_values(|a: String| a@) + args_from(
                toks,
                k as int,
                if in_quotes {
                    Option::Some(buf@)
                } else {
                    Option::None
                },
            ) == args_from(toks, from as int, Option::None),
        decreases tokens@.len() - k,
    {
        proof {
            reveal_strlit(" ");
        }
        let ghost pre = args@.map_values(|a: String| a@);
        let t: &String = &tokens[k];
        let tlen = t.as_str().unicode_len();
        proof {
            assert(toks[k as int] == t@);
        }
        if !in_quotes {
            if tlen >= 2 && t.as_str().get_char(0) == '"' && t.as_str().get_char(tlen - 1) == '"' {
                // a one-token quoted argument closes immediately, quotes stripped
                let arg = String::from_str(t.as_str().substring_char(1, tlen - 1));
                args.push(arg);
                proof {
                    assert(args@.map_values(|a: String| a@) =~= pre.push(
                        t@.subrange(1, t@.len() - 1),
                    ));
                    assert(pre.push(t@.subrange(1, t@.len() - 1)) + args_from(
                        toks,
                        k + 1,
                        Option::None,
                    ) =~= pre + (seq![t@.subrange(1, t@.len() - 1)] + args_from(
                        toks,
                        k + 1,
                        Option::None,
                    )));
                }
            } else if tlen >= 1 && t.as_str().get_char(0) == '"' {
                in_quotes = true;
                buf = String::from_str(t.as_str().substring_char(1, tlen));
            } else {
                args.push(t.clone());
                proof {
                    assert(args@.map_values(|a: String| a@) =~= pre.push(t@));
                    assert(pre.push(t@) + args_from(toks, k + 1, Option::None) =~= pre + (seq![t@]
                        + args_from(toks, k + 1, Option::None)));
                }
            }
        } else {
            let ghost b0 = buf@;
            if tlen >= 1 && t.as_str().get_char(tlen - 1) == '"' {
                buf.append(" ");
                buf.append(t.as_str().substring_char(0, tlen - 1));
                proof {
                    assert(buf@ =~= b0 + seq![' '] + t@.subrange(0, t@.len() - 1));
                }
                args.push(buf);
                buf = String::new();
                in_quotes = false;
                proof {
                    assert(args@.map_values(|a: String| a@) =~= pre.push(
                        b0 + seq![' '] + t@.subrange(0, t@.len() - 1),
                    ));
                    assert(pre.push(b0 + seq![' '] + t@.subrange(0, t@.len() - 1)) + args_from(
                        toks,
                        k + 1,
                        Option::None,
                    ) =~= pre + (seq![b0 + seq![' '] + t@.subrange(0, t@.len() - 1)] + args_from(
                        toks,
                        k + 1,
                        Option::None,
                    )));
                }
            } else {
                buf.append(" ");
                buf.append(t.as_str());
                proof {
                    assert(buf@ =~= b0 + seq![' '] + t@);
                }
            }
        }
        k = k + 1;
    }
    args
}

proof fn lemma_split_from_no_space(s: Seq<char>, i: int, start: int)
    requires
        0 <= start <= i <= s.len(),
        forall|j: int| start <= j < i ==> s[j] != ' ',
    ensures
        forall|ti: int, j: int|
            0 <= ti < split_from(s, i, start).len() && 0 <= j < split_from(s, i, start)[ti].len()
                ==> split_from(s, i, start)[ti][j] != ' ',
    decreases s.len() - i,
{
    if i >= s.len() {
        assert forall|ti: int, j: int|
            0 <= ti < split_from(s, i, start).len() && 0 <= j < split_from(s, i, start)[ti].len()
                implies split_from(s, i, start)[ti][j] != ' ' by {
            assert(split_from(s, i, start)[ti] == s.subrange(start, s.len() as int));
            assert(s.subrange(start, s.len() as int)[j] == s[start + j]);
        }
    } else if s[i] == ' ' {
        lemma_split_from_no_space(s, i + 1, i + 1);
        assert forall|ti: int, j: int|
            0 <= ti < split_from(s, i, start).len() && 0 <= j < split_from(s, i, start)[ti].len()
                implies split_from(s, i, start)[ti][j] != ' ' by {
            if ti > 0 {
                assert(split_from(s, i, start)[ti] == split_from(s, i + 1, i + 1)[ti - 1]);
            } else {
                assert(split_from(s, i, start)[0] == s.subrange(start, i));
                assert(s.subrange(start, i)[j] == s[start + j]);
            }
        }
    } else {
        lemma_split_from_no_space(s, i + 1, start);
        assert(split_from(s, i, start) == split_from(s, i + 1, start));
    }
}

proof fn lemma_split_from_no_quote(s: Seq<char>, i: int, start: int)
    requires
        0 <= start <= i <= s.len(),
        forall|j: int| 0 <= j < s.len() ==> s[j] != '"',
    ensures
        forall|ti: int, j: int|
            0 <= ti < split_from(s, i, start).len() && 0 <= j < split_from(s, i, start)[ti].len()
                ==> split_from(s, i, start)[ti][j] != '"',
    decreases s.len() - i,
{
    if i >= s.len() {
        assert forall|ti: int, j: int|
            0 <= ti < split_from(s, i, start).len() && 0 <= j < split_from(s, i, start)[ti].len()
                implies split_from(s, i, start)[ti][j] != '"' by {
            assert(split_from(s, i, start)[ti] == s.subrange(start, s.len() as int));
            assert(s.subrange(start, s.len() as int)[j] == s[start + j]);
        }
    } else if s[i] == ' ' {
        lemma_split_from_no_quote(s, i + 1, i + 1);
        assert forall|ti: int, j: int|
            0 <= ti < split_from(s, i, start).len() && 0 <= j < split_from(s, i, start)[ti].len()
                implies split_from(s, i, start)[ti][j] != '"' by {
            if ti > 0 {
                assert(split_from(s, i, start)[ti] == split_from(s, i + 1, i + 1)[ti - 1]);
            } else {
                assert(split_from(s, i, start)[0] == s.subrange(start, i));
                assert(s.subrange(start, i)[j] == s[start + j]);
            }
        }
    } else {
        lemma_split_from_no_quote(s, i + 1, start);
        assert(split_from(s, i, start) == split_from(s, i + 1, start));
    }
}

proof fn lemma_split_from_len(s: Seq<char>, i: int, start: int)
    ensures
        split_from(s, i, start).len() >= 1,
    decreases s.len() - i,
{
    if i < s.len() {
        lemma_split_from_len(s, i + 1, if s[i] == ' ' { i + 1 } else { start });
    }
}

proof fn lemma_args_from_plain(toks: Seq<Seq<char>>, k: int)
    requires
        0 <= k <= toks.len(),
        forall|ti: int| k <= ti < toks.len() ==> !starts_quote(toks[ti]),
    ensures
        args_from(toks, k, Option::None) == toks.skip(k),
    decreases toks.len() - k,
{
    if k >= toks.len() {
        assert(args_from(toks, k, Option::None) =~= toks.skip(k));
    } else {
        lemma_args_from_plain(toks, k + 1);
        assert(seq![toks[k]] + toks.skip(k + 1) =~= toks.skip(k));
    }
}

/// For a command string without quote characters, the parser splits
/// strictly on spaces: the arguments are exactly the tokens after the
/// first, and no argument contains an embedded space.
pub proof fn lemma_parse_without_quotes(s: Seq<char>)
    requires
        forall|j: int| 0 <= j < s.len() ==> s[j] != '"',
    ensures
        arguments_of(s) == split_spaces(s).skip(1),
        forall|ai: int, j: int|
            0 <= ai < arguments_of(s).len() && 0 <= j < arguments_of(s)[ai].len() ==> arguments_of(
                s,
            )[ai][j] != ' ',
{
    lemma_split_from_len(s, 0, 0);
    lemma_split_from_no_space(s, 0, 0);
    lemma_split_from_no_quote(s, 0, 0);
    let toks = split_spaces(s);
    assert forall|ti: int| 1 <= ti < toks.len() implies !starts_quote(toks[ti]) by {
        if toks[ti].len() > 0 {
            assert(toks[ti][0] != '"');
        }
    }
    lemma_args_from_plain(toks, 1);
    assert forall|ai: int, j: int|
        0 <= ai < arguments_of(s).len() && 0 <= j < arguments_of(s)[ai].len() implies arguments_of(
        s,
    )[ai][j] != ' ' by {
        assert(arguments_of(s)[ai] == toks[ai + 1]);
    }
}

/// Joined content of a quoted segment from token `k` up to its closing
/// token `j`: each token prefixed with the single space that separated
/// it, with the closing quote of token `j` stripped.
pub open spec fn quoted_tail(toks: Seq<Seq<char>>, k: int, j: int) -> Seq<char>
    decreases j - k,
{
    if k >= j {
        seq![' '] + toks[j].subrange(0, toks[j].len() - 1)
    } else {
        seq![' '] + toks[k] + quoted_tail(toks, k + 1, j)
    }
}

/// The single argument made of the quoted segment opened by token `i`
/// and closed by token `j`: the tokens' text joined by their single
/// separating spaces, surrounding quote characters stripped.
pub open spec fn quoted_argument(toks: Seq<Seq<char>>, i: int, j: int) -> Seq<char> {
    toks[i].subrange(1, toks[i].len() as int) + quoted_tail(toks, i + 1, j)
}

proof fn lemma_args_from_in_quotes(toks: Seq<Seq<char>>, k: int, j: int, b: Seq<char>)
    requires
        0 <= k <= j < toks.len(),
        forall|m: int| k <= m < j ==> !ends_quote(toks[m]),
        ends_quote(toks[j]),
    ensures
        args_from(toks, k, Option::Some(b)) == seq![b + quoted_tail(toks, k, j)] + args_from(
            toks,
            j + 1,
            Option::None,
        ),
    decreases j - k,
{
    if k == j {
        assert(b + (seq![' '] + toks[j].subrange(0, toks[j].len() - 1)) =~= b + seq![' ']
            + toks[j].subrange(0, toks[j].len() - 1));
    } else {
        lemma_args_from_in_quotes(toks, k + 1, j, b + seq![' '] + toks[k]);
        assert(b + (seq![' '] + toks[k] + quoted_tail(toks, k + 1, j)) =~= (b + seq![' ']
            + toks[k]) + quoted_tail(toks, k + 1, j));
    }
}

proof fn lemma_args_from_plain_prefix(toks: Seq<Seq<char>>, k: int, m: int)
    requires
        0 <= k <= m <= toks.len(),
        forall|ti: int| k <= ti < m ==> !starts_quote(toks[ti]),
    ensures
        args_from(toks, k, Option::None) == toks.subrange(k, m) + args_from(
            toks,
            m,
            Option::None,
        ),
    decreases m - k,
{
    if k == m {
        assert(toks.subrange(k, m) + args_from(toks, m, Option::None) =~= args_from(
            toks,
            k,
            Option::None,
        ));
    } else {
        lemma_args_from_plain_prefix(toks, k + 1, m);
        assert(seq![toks[k]] + (toks.subrange(k + 1, m) + args_from(toks, m, Option::None))
            =~= toks.subrange(k, m) + args_from(toks, m, Option::None));
    }
}

/// For a quoted segment spanning several space-delimited tokens —
/// token `i` opens a quote and token `j` is the first later token that
/// closes one — the parser emits the whole segment as one single
/// argument, its internal spaces preserved and the surrounding quote
/// characters stripped, and then continues after token `j`.
pub proof fn lemma_quoted_segment(toks: Seq<Seq<char>>, i: int, j: int)
    requires
        0 <= i < j < toks.len(),
        starts_quote(toks[i]),
        !single_quoted(toks[i]),
        forall|m: int| i < m < j ==> !ends_quote(toks[m]),
        ends_quote(toks[j]),
    ensures
        args_from(toks, i, Option::None) == seq![quoted_argument(toks, i, j)] + args_from(
            toks,
            j + 1,
            Option::None,
        ),
{
    lemma_args_from_in_quotes(toks, i + 1, j, toks[i].subrange(1, toks[i].len() as int));
}

/// For a whole command string holding a quoted segment that spans
/// several tokens — every token between the program name and the
/// opening token `i` plain, and token `j` the first one after `i`
/// that closes a quote — the argument list is those plain tokens,
/// then the quoted segment as one single argument with its internal
/// spaces preserved and the surrounding quote characters stripped,
/// then whatever the tokens after `j` produce.
pub proof fn lemma_arguments_with_quoted_segment(s: Seq<char>, i: int, j: int)
    requires
        1 <= i < j < split_spaces(s).len(),
        forall|m: int| 1 <= m < i ==> !starts_quote(split_spaces(s)[m]),
        starts_quote(split_spaces(s)[i]),
        !single_quoted(split_spaces(s)[i]),
        forall|m: int| i < m < j ==> !ends_quote(split_spaces(s)[m]),
        ends_quote(split_spaces(s)[j]),
    ensures
        arguments_of(s) == split_spaces(s).subrange(1, i) + seq![
            quoted_argument(split_spaces(s), i, j),
        ] + args_from(split_spaces(s), j + 1, Option::None),
{
    let toks = split_spaces(s);
    lemma_args_from_plain_prefix(toks, 1, i);
    lemma_quoted_segment(toks, i, j);
    assert(toks.subrange(1, i) + (seq![quoted_argument(toks, i, j)] + args_from(
        toks,
        j + 1,
        Option::None,
    )) =~= toks.subrange(1, i) + seq![quoted_argument(toks, i, j)] + args_from(
        toks,
        j + 1,
        Option::None,
    ));
}

/// Parse a raw command string into the program name and the argument
/// list, honoring double-quoted segments as single arguments.
pub fn parse_command(raw: &str) -> (r: (String, Vec<String>))
    ensures
        r.0@ == command_of(raw@),
        r.1@.map_values(|a: String| a@) == arguments_of(raw@),
{
    let tokens = split_tokens(raw);
    let program = tokens[0].clone();
    let args = quote_fold(&tokens, 1);
    (program, args)
}

} // verus!
