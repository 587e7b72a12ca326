//! Links of the form `nxm://game/...`.

use crate::text::{
    has_prefix, lemma_span, lemma_span_is, span, span_of, starts_with,
};
use vstd::prelude::*;
use vstd::string::*;
use vstd::utf8::encode_utf8;

verus! {

/// The length in bytes up to which a link is accepted.
pub const MAX_URL_LEN: usize = 8192;

/// The characters that end the name of the game.
pub open spec fn game_ends() -> Seq<char> {
    seq!['/', '?', '#']
}

/// The characters that begin the query and the fragment of a link.
pub open spec fn query_starts() -> Seq<char> {
    seq!['?', '#']
}

/// The game that a link is for, or why the link is refused.
pub open spec fn game_of(url: Seq<char>) -> Result<Seq<char>, Seq<char>> {
    if encode_utf8(url).len() > MAX_URL_LEN {
        Err("URL too long"@)
    } else if !has_prefix(url, "nxm://"@) {
        Err("Not an nxm url"@)
    } else {
        let rest = url.skip(6);
        let game = rest.take(span(rest, game_ends()) as int);
        if game.len() == 0 {
            Err("Invalid url"@)
        } else {
            Ok(game)
        }
    }
}

/// Finds the game that a link is for.
pub fn parse_nxm_game(url: &str) -> (out: Result<&str, String>)
    ensures
        match (out, game_of(url@)) {
            (Ok(game), Ok(g)) => game@ == g,
            (Err(message), Err(m)) => message@ == m,
            _ => false,
        },
{
    if url.as_bytes().len() > MAX_URL_LEN {
        return Err("URL too long".to_owned());
    }
    if !starts_with(url, "nxm://") {
        return Err("Not an nxm url".to_owned());
    }
    proof {
        reveal_strlit("nxm://");
    }
    let rest = url.substring_char(6, url.unicode_len());
    assert(rest@ == url@.skip(6));
    let ends: Vec<char> = vec!['/', '?', '#'];
    assert(ends@ == game_ends());
    let n = span_of(rest, &ends);
    proof {
        lemma_span(rest@, game_ends());
    }
    if n == 0 {
        return Err("Invalid url".to_owned());
    }
    Ok(rest.substring_char(0, n))
}

/// The part of a link that may be logged: all before its query and its fragment.
pub open spec fn loggable(url: Seq<char>) -> Seq<char> {
    url.take(span(url, query_starts()) as int)
}

/// Cuts off the query and the fragment of a link, so that no token in them is logged.
pub fn sanitize_url_for_log(url: &str) -> (out: &str)
    ensures
        out@ == loggable(url@),
{
    let starts: Vec<char> = vec!['?', '#'];
    assert(starts@ == query_starts());
    proof {
        lemma_span(url@, query_starts());
    }
    url.substring_char(0, span_of(url, &starts))
}

/// The link of a game: the name is not empty and has no delimiter, it stands behind `nxm://`,
/// and nothing or a delimiter follows it.
pub proof fn law_game_stands_in_the_link(url: Seq<char>)
    requires
        game_of(url) is Ok,
    ensures
        ({
            let game = game_of(url)->Ok_0;
            let rest = url.skip(6int + game.len());
            &&& game.len() > 0
            &&& forall|i: int| 0 <= i < game.len() ==> !game_ends().contains(#[trigger] game[i])
            &&& url == "nxm://"@ + game + rest
            &&& rest.len() == 0 || game_ends().contains(rest[0])
            &&& encode_utf8(url).len() <= MAX_URL_LEN
        }),
{
    reveal_strlit("nxm://");
    let tail = url.skip(6);
    lemma_span(tail, game_ends());
    let game = game_of(url)->Ok_0;
    assert(url == url.subrange(0, 6) + game + url.skip(6int + game.len()));
    assert forall|i: int| 0 <= i < game.len() implies !game_ends().contains(#[trigger] game[i]) by {
        assert(game[i] == tail[i]);
    }
    if url.skip(6int + game.len()).len() > 0 {
        assert(url.skip(6int + game.len())[0] == tail[game.len() as int]);
    }
}

/// Every link is accepted that is short enough and has a game behind `nxm://`.
pub proof fn law_links_of_games_are_accepted(game: Seq<char>, rest: Seq<char>)
    requires
        game.len() > 0,
        forall|i: int| 0 <= i < game.len() ==> !game_ends().contains(#[trigger] game[i]),
        rest.len() == 0 || game_ends().contains(rest[0]),
        encode_utf8("nxm://"@ + game + rest).len() <= MAX_URL_LEN,
    ensures
        game_of("nxm://"@ + game + rest) == Ok::<Seq<char>, Seq<char>>(game),
{
    reveal_strlit("nxm://");
    let url = "nxm://"@ + game + rest;
    assert(url.subrange(0, 6) == "nxm://"@);
    let tail = url.skip(6);
    assert(tail == game + rest);
    assert forall|i: int| 0 <= i < game.len() implies !game_ends().contains(#[trigger] tail[i]) by {
        assert(tail[i] == game[i]);
    }
    if rest.len() > 0 {
        assert(tail[game.len() as int] == rest[0]);
    }
    lemma_span_is(tail, game_ends(), game.len());
    assert(tail.take(game.len() as int) == game);
}

/// What is logged of a link has no query and no fragment, and does not depend on what they hold.
pub proof fn law_log_hides_query(head: Seq<char>, start: char, hidden: Seq<char>)
    requires
        !head.contains('?'),
        !head.contains('#'),
        start == '?' || start == '#',
    ensures
        loggable(head + seq![start] + hidden) == head,
        loggable(head) == head,
{
    let starts = query_starts();
    let url = head + seq![start] + hidden;
    assert(starts[0] == '?' && starts[1] == '#');
    assert forall|i: int| 0 <= i < head.len() implies !starts.contains(#[trigger] head[i]) by {}
    assert forall|i: int| 0 <= i < head.len() implies !starts.contains(#[trigger] url[i]) by {
        assert(url[i] == head[i]);
    }
    assert(url[head.len() as int] == start);
    lemma_span_is(url, starts, head.len());
    lemma_span_is(head, starts, head.len());
    assert(url.take(head.len() as int) == head);
    assert(head.take(head.len() as int) == head);
}

/// The game of a link is all that stands behind `nxm://` up to the first slash, question mark or
/// number sign, or up to the end, character for character.
pub proof fn law_game_reaches_to_the_first_delimiter(game: Seq<char>, rest: Seq<char>)
    requires
        game.len() > 0,
        !game.contains('/') && !game.contains('?') && !game.contains('#'),
        rest.len() == 0 || rest[0] == '/' || rest[0] == '?' || rest[0] == '#',
        encode_utf8("nxm://"@ + game + rest).len() <= 8192,
    ensures
        game_of("nxm://"@ + game + rest) == Ok::<Seq<char>, Seq<char>>(game),
{
    let ends = game_ends();
    assert(ends[0] == '/' && ends[1] == '?' && ends[2] == '#');
    law_links_of_games_are_accepted(game, rest);
}

/// A link is refused for its length where it takes more than 8192 bytes; else for its protocol
/// where it does not begin with `nxm://`; else where nothing or a delimiter follows, for want of a
/// game; and for nothing else.
pub proof fn law_which_links_are_refused(url: Seq<char>)
    ensures
        encode_utf8(url).len() > 8192 ==> game_of(url) == Err::<Seq<char>, Seq<char>>(
            "URL too long"@,
        ),
        encode_utf8(url).len() <= 8192 && (url.len() < 6 || url.take(6) != "nxm://"@) ==> game_of(
            url,
        ) == Err::<Seq<char>, Seq<char>>("Not an nxm url"@),
        encode_utf8(url).len() <= 8192 && url.len() >= 6 && url.take(6) == "nxm://"@ && (url.len()
            == 6 || url[6] == '/' || url[6] == '?' || url[6] == '#') ==> game_of(url) == Err::<
            Seq<char>,
            Seq<char>,
        >("Invalid url"@),
        encode_utf8(url).len() <= 8192 && url.len() > 6 && url.take(6) == "nxm://"@ && url[6] != '/'
            && url[6] != '?' && url[6] != '#' ==> game_of(url) is Ok,
{
    reveal_strlit("nxm://");
    let ends = game_ends();
    assert(ends[0] == '/' && ends[1] == '?' && ends[2] == '#');
    if url.len() >= 6 {
        assert(url.subrange(0, 6) == url.take(6));
        let tail = url.skip(6);
        lemma_span(tail, ends);
        if url.len() > 6 {
            assert(tail[0] == url[6]);
        }
    }
}

} // verus!
