//! Server nicknames: where they are looked up, and what the lookup answers.

use vstd::prelude::*;

use crate::error::{Error, ErrorView};
use crate::text::{chars_of, texts};

verus! {

/// Where nicknames are looked up.
pub const NICKNAME_LOOKUP_ADDRESS: &'static str = "https://named.myteamspeak.com/lookup";

/// The query parameter that holds the nickname.
pub const NICKNAME_PARAMETER: &'static str = "name";

/// What `url::Url::parse_with_params` makes of an address and one query parameter: the
/// text of the url, or the error if the address is no url.
pub uninterp spec fn url_with_param(
    address: Seq<char>,
    key: Seq<char>,
    value: Seq<char>,
) -> Result<Seq<char>, url::ParseError>;

/// Calls `url::Url::parse_with_params` with one parameter and gives the text of the url.
/// The text, or the error, is a function of the three arguments; how a url is read, how it
/// is written and how the parameter is encoded is not spelled out. It is called for the
/// address of nickname lookups only: with addresses beyond 4 GiB it would panic.
#[verifier::external_body]
fn parse_with_param(address: &str, key: &str, value: &str) -> (r: Result<String, url::ParseError>)
    requires
        address@ == NICKNAME_LOOKUP_ADDRESS@,
        key@ == NICKNAME_PARAMETER@,
    ensures
        match r {
            Ok(text) => url_with_param(address@, key@, value@) == Ok::<
                Seq<char>,
                url::ParseError,
            >(text@),
            Err(e) => url_with_param(address@, key@, value@) == Err::<
                Seq<char>,
                url::ParseError,
            >(e),
        },
{
    url::Url::parse_with_params(address, Some((key, value))).map(|url| url.into())
}

/// The url at which a nickname is looked up.
pub open spec fn lookup_url(nickname: Seq<char>) -> Result<Seq<char>, ErrorView> {
    match url_with_param(NICKNAME_LOOKUP_ADDRESS@, NICKNAME_PARAMETER@, nickname) {
        Ok(url) => Ok(url),
        Err(e) => Err(ErrorView::NicknameParseUrl(e)),
    }
}

/// The url at which a nickname is looked up.
pub fn nickname_url(nickname: &str) -> (r: Result<String, Error>)
    ensures
        match r {
            Ok(url) => lookup_url(nickname@) == Ok::<Seq<char>, ErrorView>(url@),
            Err(e) => lookup_url(nickname@) == Err::<Seq<char>, ErrorView>(e@),
        },
{
    match parse_with_param(NICKNAME_LOOKUP_ADDRESS, NICKNAME_PARAMETER, nickname) {
        Ok(url) => Ok(url),
        Err(e) => Err(Error::NicknameParseUrl(e)),
    }
}

/// A line break.
pub open spec fn is_break(c: char) -> bool {
    c == '\r' || c == '\n'
}

/// Where the first line ends: at the first line break, or at the end.
pub open spec fn line_end(s: Seq<char>) -> int
    decreases s.len(),
{
    if s.len() == 0 || is_break(s[0]) {
        0
    } else {
        1 + line_end(s.drop_first())
    }
}

/// The first line stops at a line break or at the end, and holds none.
proof fn lemma_line_end(s: Seq<char>)
    ensures
        0 <= line_end(s) <= s.len(),
        line_end(s) < s.len() ==> is_break(s[line_end(s)]),
        forall|i: int| 0 <= i < line_end(s) ==> !is_break(#[trigger] s[i]),
    decreases s.len(),
{
    if s.len() > 0 && !is_break(s[0]) {
        let rest = s.drop_first();
        lemma_line_end(rest);
        assert(forall|i: int| 0 < i < s.len() ==> s[i] == rest[i - 1]);
    }
}

/// The line ends where the first line break stands.
proof fn lemma_line_end_at(s: Seq<char>, n: int)
    requires
        0 <= n <= s.len(),
        n < s.len() ==> is_break(s[n]),
        forall|i: int| 0 <= i < n ==> !is_break(#[trigger] s[i]),
    ensures
        line_end(s) == n,
{
    lemma_line_end(s);
}

/// The lines of a text that are not empty.
pub open spec fn filled_lines(s: Seq<char>) -> Seq<Seq<char>>
    decreases s.len(),
{
    let n = line_end(s);
    let line = if n > 0 {
        seq![s.take(n)]
    } else {
        Seq::<Seq<char>>::empty()
    };
    if 0 <= n < s.len() {
        line + filled_lines(s.skip(n + 1))
    } else {
        line
    }
}

/// The addresses that the answer of a nickname lookup lists: one on each line that is
/// not empty.
pub fn nickname_addresses(body: &str) -> (r: Vec<String>)
    ensures
        texts(r@) == filled_lines(body@),
{
    let chars = chars_of(body);
    let mut out: Vec<String> = Vec::new();
    let mut start: usize = 0;
    let mut i: usize = 0;
    assert(body@.skip(0) == body@);
    assert(texts(out@) + filled_lines(body@) == filled_lines(body@));
    while i < chars.len()
        invariant
            start <= i <= chars.len(),
            chars@ == body@,
            texts(out@) + filled_lines(body@.skip(start as int)) == filled_lines(body@),
            forall|j: int| start <= j < i ==> !is_break(#[trigger] body@[j]),
        decreases chars.len() - i,
    {
        if chars[i] == '\r' || chars[i] == '\n' {
            let ghost rest = body@.skip(start as int);
            let ghost before = out@;
            proof {
                lemma_line_end_at(rest, i - start);
                assert(rest.skip(i - start + 1) == body@.skip(i + 1));
            }
            if start < i {
                let line = body.substring_char(start, i);
                assert(line@ == rest.take(i - start));
                out.push(line.to_owned());
                assert(texts(out@) == texts(before) + seq![rest.take(i - start)]);
                assert(texts(out@) + filled_lines(body@.skip(i + 1)) == texts(before) + (seq![
                    rest.take(i - start),
                ] + filled_lines(body@.skip(i + 1))));
            } else {
                assert(Seq::<Seq<char>>::empty() + filled_lines(body@.skip(i + 1))
                    == filled_lines(body@.skip(i + 1)));
            }
            start = i + 1;
        }
        i += 1;
    }
    let ghost rest = body@.skip(start as int);
    proof {
        lemma_line_end_at(rest, i - start);
    }
    if start < i {
        let ghost before = out@;
        let line = body.substring_char(start, i);
        assert(line@ == rest.take(i - start));
        out.push(line.to_owned());
        assert(texts(out@) == texts(before) + seq![rest.take(i - start)]);
    } else {
        assert(texts(out@) + Seq::<Seq<char>>::empty() == texts(out@));
    }
    out
}

/// No address that a nickname lookup lists is empty or goes over a line break.
pub proof fn law_lines_are_filled(body: Seq<char>, k: int)
    requires
        0 <= k < filled_lines(body).len(),
    ensures
        filled_lines(body)[k].len() > 0,
        forall|i: int|
            0 <= i < filled_lines(body)[k].len() ==> !is_break(#[trigger] filled_lines(body)[k][i]),
    decreases body.len(),
{
    lemma_line_end(body);
    let n = line_end(body);
    let first: int = if n > 0 {
        1
    } else {
        0
    };
    if k >= first {
        law_lines_are_filled(body.skip(n + 1), k - first);
        assert(filled_lines(body)[k] == filled_lines(body.skip(n + 1))[k - first]);
    }
}

/// A nickname is looked up under its own name, unchanged, at the address of nickname
/// lookups.
pub proof fn law_nickname_is_looked_up(nickname: Seq<char>)
    ensures
        lookup_url(nickname) == match url_with_param(
            "https://named.myteamspeak.com/lookup"@,
            "name"@,
            nickname,
        ) {
            Ok(url) => Ok::<Seq<char>, ErrorView>(url),
            Err(e) => Err(ErrorView::NicknameParseUrl(e)),
        },
{
}

/// A line is listed as it stands unless it is empty, and a carriage return or a line feed
/// ends a line: what stands in front of it is listed, then what follows it.
pub proof fn law_lines_are_listed_one_by_one(line: Seq<char>, end: char, rest: Seq<char>)
    requires
        forall|i: int| 0 <= i < line.len() ==> line[i] != '\r' && line[i] != '\n',
        end == '\r' || end == '\n',
    ensures
        filled_lines(Seq::empty()) == Seq::<Seq<char>>::empty(),
        line.len() > 0 ==> filled_lines(line) == seq![line],
        line.len() > 0 ==> filled_lines(line + seq![end] + rest) == seq![line] + filled_lines(rest),
        line.len() == 0 ==> filled_lines(line + seq![end] + rest) == filled_lines(rest),
{
    let n = line.len() as int;
    let body = line + seq![end] + rest;
    lemma_line_end_at(Seq::<char>::empty(), 0);
    lemma_line_end_at(line, n);
    assert(line.take(n) == line);
    assert forall|i: int| 0 <= i < n implies !is_break(#[trigger] body[i]) by {
        assert(body[i] == line[i]);
    }
    assert(body[n] == end);
    lemma_line_end_at(body, n);
    assert(body.take(n) == line);
    assert(body.skip(n + 1) == rest);
    assert(Seq::<Seq<char>>::empty() + filled_lines(rest) =~= filled_lines(rest));
}

/// What a body lists up to a line break does not depend on what follows it, nor what
/// follows on what stands in front.
pub proof fn law_listed_lines_add_up(front: Seq<char>, end: char, rest: Seq<char>)
    requires
        end == '\r' || end == '\n',
    ensures
        filled_lines(front + seq![end] + rest) == filled_lines(front) + filled_lines(rest),
    decreases front.len(),
{
    let n = line_end(front);
    let line = front.take(n);
    lemma_line_end(front);
    law_lines_are_listed_one_by_one(line, end, rest);
    if n == front.len() {
        assert(line == front);
        if n == 0 {
            assert(front =~= Seq::<char>::empty());
            assert(Seq::<Seq<char>>::empty() + filled_lines(rest) =~= filled_lines(rest));
        }
    } else {
        let more = front.skip(n + 1);
        assert(front =~= line + seq![front[n]] + more);
        law_lines_are_listed_one_by_one(line, front[n], more);
        law_lines_are_listed_one_by_one(line, front[n], more + seq![end] + rest);
        assert(front + seq![end] + rest =~= line + seq![front[n]] + (more + seq![end] + rest));
        law_listed_lines_add_up(more, end, rest);
        assert(seq![line] + (filled_lines(more) + filled_lines(rest)) =~= seq![line]
            + filled_lines(more) + filled_lines(rest));
    }
}

} // verus!
