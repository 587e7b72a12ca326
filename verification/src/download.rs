//! Handing a link to its manager: through a pipe, or else by starting the manager.

use crate::config_file::{assigned, deregistered, manager_of, piped, Config, ConfigModel};
use crate::text::{contains, has_prefix, occurs, replace, replaced, stands_at, texts};
use crate::text_laws::{
    law_first_occurrence_is_replaced, law_nothing_to_replace, law_what_stands_in_a_text_occurs,
};
use crate::url::{
    game_of, law_game_reaches_to_the_first_delimiter, law_which_links_are_refused, parse_nxm_game,
};
use vstd::prelude::*;
use vstd::string::*;
use vstd::utf8::encode_utf8;

verus! {

/// How a link goes to a manager.
#[derive(Debug)]
pub enum Delivery {
    /// Write the link to this pipe of the manager.
    Pipe { manager: String, pipe: String },
    /// Start the manager with the link.
    Launch { manager: String },
    /// Nothing more to do: the manager has it.
    Done,
}

/// What a delivery says.
pub enum DeliveryModel {
    Pipe { manager: Seq<char>, pipe: Seq<char> },
    Launch { manager: Seq<char> },
    Done,
}

impl View for Delivery {
    type V = DeliveryModel;

    open spec fn view(&self) -> DeliveryModel {
        match *self {
            Delivery::Pipe { manager, pipe } => DeliveryModel::Pipe {
                manager: manager@,
                pipe: pipe@,
            },
            Delivery::Launch { manager } => DeliveryModel::Launch { manager: manager@ },
            Delivery::Done => DeliveryModel::Done,
        }
    }
}

/// How a link goes to the manager of its game, or why it goes to none.
pub open spec fn delivery_of(config: ConfigModel, url: Seq<char>) -> Result<
    DeliveryModel,
    Seq<char>,
> {
    match game_of(url) {
        Err(message) => Err(message),
        Ok(game) => match manager_of(config, game) {
            None => Err("No manager for game "@ + game),
            Some(manager) => if config.pipes.contains_key(manager) {
                Ok(DeliveryModel::Pipe { manager, pipe: config.pipes[manager] })
            } else {
                Ok(DeliveryModel::Launch { manager })
            },
        },
    }
}

/// Decides how a link goes to the manager of its game.
pub fn download(config: &Config, url: &str) -> (out: Result<Delivery, String>)
    ensures
        match (out, delivery_of(config@, url@)) {
            (Ok(delivery), Ok(d)) => delivery@ == d,
            (Err(message), Err(m)) => message@ == m,
            _ => false,
        },
        out matches Ok(Delivery::Pipe { manager, pipe }) ==> config.pipes@.contains_key(manager@)
            && pipe@ == config.pipes@[manager@],
        out matches Ok(Delivery::Launch { manager }) ==> !config.pipes@.contains_key(manager@),
        out matches Ok(delivery) ==> !(delivery is Done),
{
    let game = match parse_nxm_game(url) {
        Ok(game) => game,
        Err(message) => {
            return Err(message);
        },
    };
    let manager = match config.resolve(game) {
        Ok(manager) => manager,
        Err(message) => {
            return Err(message);
        },
    };
    match config.pipes.get(manager.as_str()) {
        Some(pipe) => Ok(Delivery::Pipe { manager, pipe: pipe.clone() }),
        None => Ok(Delivery::Launch { manager }),
    }
}

/// What follows the attempt to write a link to the pipe of a manager: where it failed, the manager
/// is started instead.
pub fn after_pipe(manager: String, sent: bool) -> (next: Delivery)
    ensures
        next@ == (if sent {
            DeliveryModel::Done
        } else {
            DeliveryModel::Launch { manager: manager@ }
        }),
        sent <==> next is Done,
        !sent ==> next == (Delivery::Launch { manager }),
{
    if sent {
        Delivery::Done
    } else {
        Delivery::Launch { manager }
    }
}

/// What stands for the link while a command is split into its tokens.
pub open spec fn url_placeholder() -> Seq<char> {
    "__NXMPROXY_URL_PLACEHOLDER__"@
}

/// A command with the placeholder where the link belongs: in the place of each `%1`,
/// or at the end where there is none.
pub open spec fn with_placeholder(template: Seq<char>) -> Seq<char> {
    if occurs(template, "%1"@) {
        replaced(template, "%1"@, url_placeholder())
    } else {
        template + " "@ + url_placeholder()
    }
}

/// Puts the placeholder where the link belongs in a command.
pub fn command_line(template: &str) -> (out: String)
    ensures
        out@ == with_placeholder(template@),
{
    proof {
        reveal_strlit("%1");
    }
    if contains(template, "%1") {
        replace(template, "%1", "__NXMPROXY_URL_PLACEHOLDER__")
    } else {
        let mut out: String = template.to_owned();
        out.append(" ");
        out.append("__NXMPROXY_URL_PLACEHOLDER__");
        out
    }
}

/// The command line that starts a manager, with the placeholder where the link belongs.
pub fn launch_command(config: &Config, manager: &str) -> (out: String)
    requires
        config@.managers.contains_key(manager@),
    ensures
        out@ == with_placeholder(config@.managers[manager@]),
{
    match config.managers.get(manager) {
        Some(template) => command_line(template.as_str()),
        None => String::new(),
    }
}

/// A token with the link in the place of each placeholder.
pub open spec fn filled(token: Seq<char>, url: Seq<char>) -> Seq<char> {
    replaced(token, url_placeholder(), url)
}

/// Puts the link in the place of each placeholder in a token.
fn fill(token: &str, url: &str) -> (out: String)
    ensures
        out@ == filled(token@, url@),
        out@ == replaced(token@, "__NXMPROXY_URL_PLACEHOLDER__"@, url@),
{
    proof {
        reveal_strlit("__NXMPROXY_URL_PLACEHOLDER__");
    }
    replace(token, "__NXMPROXY_URL_PLACEHOLDER__", url)
}

/// The tokens with the link in the place of each placeholder, one for one.
pub open spec fn all_filled(tokens: Seq<Seq<char>>, url: Seq<char>) -> Seq<Seq<char>> {
    Seq::new(tokens.len(), |i: int| filled(tokens[i], url))
}

/// The program and the arguments that start a manager, from the tokens of its command line:
/// the link is put in when the command is already split, so that nothing in it can add a token.
pub fn build_manager_invocation(
    tokens: Result<(String, Vec<String>), String>,
    url: &str,
) -> (out: Result<(String, Vec<String>), String>)
    ensures
        match (tokens, out) {
            (Ok((exe, args)), Ok((e, a))) => {
                &&& e@ == filled(exe@, url@)
                &&& texts(a@) == all_filled(texts(args@), url@)
                &&& e@ == replaced(exe@, "__NXMPROXY_URL_PLACEHOLDER__"@, url@)
                &&& a@.len() == args@.len()
                &&& forall|i: int|
                    0 <= i < args@.len() ==> (#[trigger] a@[i])@ == replaced(
                        args@[i]@,
                        "__NXMPROXY_URL_PLACEHOLDER__"@,
                        url@,
                    )
            },
            (Err(reason), Err(message)) => message@ == "Failed to parse command line: "@ + reason@,
            _ => false,
        },
{
    match tokens {
        Ok((exe, args)) => {
            let mut out: Vec<String> = Vec::new();
            let mut i: usize = 0;
            while i < args.len()
                invariant
                    i <= args@.len(),
                    out@.len() == i,
                    forall|j: int|
                        0 <= j < i ==> (#[trigger] out@[j])@ == filled(args@[j]@, url@),
                decreases args@.len() - i,
            {
                out.push(fill(args[i].as_str(), url));
                i += 1;
            }
            assert(texts(out@) =~= all_filled(texts(args@), url@));
            Ok((fill(exe.as_str(), url), out))
        },
        Err(reason) => {
            let mut message: String = "Failed to parse command line: ".to_owned();
            message.append(reason.as_str());
            Err(message)
        },
    }
}

/// What came of starting a manager, with the message for a failure.
pub fn after_spawn(spawned: Result<(), String>) -> (out: Result<(), String>)
    ensures
        match (spawned, out) {
            (Ok(_), Ok(_)) => true,
            (Err(reason), Err(message)) => message@ == "Failed to spawn manager: "@ + reason@,
            _ => false,
        },
{
    match spawned {
        Ok(_) => Ok(()),
        Err(reason) => {
            let mut message: String = "Failed to spawn manager: ".to_owned();
            message.append(reason.as_str());
            Err(message)
        },
    }
}

/// Where a text does not occur, there is nothing to replace.
proof fn lemma_nothing_replaced(s: Seq<char>, pat: Seq<char>, with: Seq<char>)
    requires
        !occurs(s, pat),
    ensures
        replaced(s, pat, with) == s,
{
    law_nothing_to_replace(s, pat, with);
}

/// What stands in the tail of a text stands in the text.
proof fn lemma_occurs_behind(head: Seq<char>, tail: Seq<char>, pat: Seq<char>)
    requires
        occurs(tail, pat),
    ensures
        occurs(head + tail, pat),
{
    let i = choose|i: int| stands_at(tail, i, pat);
    let n = head.len();
    assert((head + tail).subrange(n + i, n + i + pat.len()) == tail.subrange(i, i + pat.len()));
    assert(stands_at(head + tail, n + i, pat));
}

/// Where a text occurs, what replaces it occurs afterwards.
proof fn lemma_replacement_occurs(s: Seq<char>, pat: Seq<char>, with: Seq<char>)
    requires
        occurs(s, pat),
        pat.len() > 0,
    ensures
        occurs(replaced(s, pat, with), with),
    decreases s.len(),
{
    if has_prefix(s, pat) {
        let rest = replaced(s.skip(pat.len() as int), pat, with);
        assert((with + rest).subrange(0, with.len() as int) == with);
        assert(stands_at(with + rest, 0, with));
    } else {
        let i = choose|i: int| stands_at(s, i, pat);
        let rest = s.skip(1);
        assert(rest.subrange(i - 1, i - 1 + pat.len()) == s.subrange(i, i + pat.len()));
        assert(stands_at(rest, i - 1, pat));
        lemma_replacement_occurs(rest, pat, with);
        lemma_occurs_behind(seq![s[0]], replaced(rest, pat, with), with);
    }
}

/// The command line that is split has the placeholder in it, whatever the template.
pub proof fn law_command_line_has_the_placeholder(template: Seq<char>)
    ensures
        occurs(with_placeholder(template), url_placeholder()),
{
    reveal_strlit("%1");
    if occurs(template, "%1"@) {
        lemma_replacement_occurs(template, "%1"@, url_placeholder());
    } else {
        let p = url_placeholder();
        assert(p.subrange(0, p.len() as int) == p);
        assert(stands_at(p, 0, p));
        lemma_occurs_behind(template + " "@, p, p);
    }
}

/// Where the manager of every game is registered, so is the manager that a link goes to: it can be
/// started.
pub proof fn law_registered_managers_can_be_started(config: ConfigModel, url: Seq<char>)
    requires
        forall|game: Seq<char>| #[trigger]
            config.games.contains_key(game) ==> config.managers.contains_key(config.games[game]),
    ensures
        delivery_of(config, url) matches Ok(DeliveryModel::Launch { manager })
            ==> config.managers.contains_key(manager),
        delivery_of(config, url) matches Ok(DeliveryModel::Pipe { manager, pipe })
            ==> config.managers.contains_key(manager),
{
}

/// Putting a link in neither adds nor drops a token, leaves every token without the placeholder
/// as it is, and makes the link itself, as one token, of a token that is the placeholder.
pub proof fn law_url_stays_within_its_token(tokens: Seq<Seq<char>>, url: Seq<char>, i: int)
    requires
        0 <= i < tokens.len(),
    ensures
        all_filled(tokens, url).len() == tokens.len(),
        !occurs(tokens[i], url_placeholder()) ==> all_filled(tokens, url)[i] == tokens[i],
        tokens[i] == url_placeholder() ==> all_filled(tokens, url)[i] == url,
{
    let token = tokens[i];
    let p = url_placeholder();
    if !occurs(token, p) {
        lemma_nothing_replaced(token, p, url);
    }
    if token == p {
        reveal_strlit("__NXMPROXY_URL_PLACEHOLDER__");
        assert(p.subrange(0, p.len() as int) == p);
        assert(p.skip(p.len() as int) == Seq::<char>::empty());
        assert(replaced(Seq::empty(), p, url) == Seq::<char>::empty());
        assert(url + Seq::<char>::empty() == url);
    }
}

/// Two links give the same number of tokens, and the same token wherever the placeholder is not.
pub proof fn law_links_differ_only_at_the_placeholder(
    tokens: Seq<Seq<char>>,
    url: Seq<char>,
    other: Seq<char>,
    i: int,
)
    requires
        0 <= i < tokens.len(),
    ensures
        all_filled(tokens, url).len() == all_filled(tokens, other).len(),
        !occurs(tokens[i], url_placeholder()) ==> all_filled(tokens, url)[i] == all_filled(
            tokens,
            other,
        )[i],
{
    law_url_stays_within_its_token(tokens, url, i);
    law_url_stays_within_its_token(tokens, other, i);
}

/// A link whose game has a manager, its own or the one of the game `_`, goes to that manager:
/// through the pipe of the manager where it has one, however the game came to it, and by starting
/// the manager exactly where it has none.
pub proof fn law_link_goes_to_the_pipe_of_its_manager(
    config: ConfigModel,
    game: Seq<char>,
    rest: Seq<char>,
    manager: Seq<char>,
)
    requires
        game.len() > 0,
        !game.contains('/') && !game.contains('?') && !game.contains('#'),
        rest.len() == 0 || rest[0] == '/' || rest[0] == '?' || rest[0] == '#',
        encode_utf8("nxm://"@ + game + rest).len() <= 8192,
        if config.games.contains_key(game) {
            config.games[game] == manager
        } else {
            config.games.contains_key("_"@) && config.games["_"@] == manager
        },
    ensures
        config.pipes.contains_key(manager) ==> delivery_of(config, "nxm://"@ + game + rest) == Ok::<
            DeliveryModel,
            Seq<char>,
        >(DeliveryModel::Pipe { manager, pipe: config.pipes[manager] }),
        !config.pipes.contains_key(manager) ==> delivery_of(config, "nxm://"@ + game + rest)
            == Ok::<DeliveryModel, Seq<char>>(DeliveryModel::Launch { manager }),
{
    law_game_reaches_to_the_first_delimiter(game, rest);
}

/// A link whose game has no manager, where the game `_` has none either, goes nowhere, and the
/// message names the game.
pub proof fn law_link_without_manager_is_refused(
    config: ConfigModel,
    game: Seq<char>,
    rest: Seq<char>,
)
    requires
        game.len() > 0,
        !game.contains('/') && !game.contains('?') && !game.contains('#'),
        rest.len() == 0 || rest[0] == '/' || rest[0] == '?' || rest[0] == '#',
        encode_utf8("nxm://"@ + game + rest).len() <= 8192,
        !config.games.contains_key(game),
        !config.games.contains_key("_"@),
    ensures
        delivery_of(config, "nxm://"@ + game + rest) == Err::<DeliveryModel, Seq<char>>(
            "No manager for game "@ + game,
        ),
{
    law_game_reaches_to_the_first_delimiter(game, rest);
}

/// A link that is refused is refused with the same message whatever the configuration.
pub proof fn law_refused_link_goes_nowhere(config: ConfigModel, url: Seq<char>)
    ensures
        encode_utf8(url).len() > 8192 ==> delivery_of(config, url) == Err::<
            DeliveryModel,
            Seq<char>,
        >("URL too long"@),
        encode_utf8(url).len() <= 8192 && (url.len() < 6 || url.take(6) != "nxm://"@)
            ==> delivery_of(config, url) == Err::<DeliveryModel, Seq<char>>("Not an nxm url"@),
        encode_utf8(url).len() <= 8192 && url.len() >= 6 && url.take(6) == "nxm://"@ && (url.len()
            == 6 || url[6] == '/' || url[6] == '?' || url[6] == '#') ==> delivery_of(config, url)
            == Err::<DeliveryModel, Seq<char>>("Invalid url"@),
{
    law_which_links_are_refused(url);
}

/// The whole link, its query and fragment with it, stands in the place of the placeholder, between
/// what stood before and behind it in the token. Where the placeholder occurs more than once, the
/// same holds of the first one and then of what follows it.
pub proof fn law_whole_link_stands_in_its_place(
    a: Seq<char>,
    b: Seq<char>,
    url: Seq<char>,
)
    requires
        forall|i: int|
            0 <= i < a.len() ==> !stands_at(
                a + "__NXMPROXY_URL_PLACEHOLDER__"@ + b,
                i,
                "__NXMPROXY_URL_PLACEHOLDER__"@,
            ),
    ensures
        filled(a + "__NXMPROXY_URL_PLACEHOLDER__"@ + b, url) == a + url + filled(b, url),
        !occurs(b, "__NXMPROXY_URL_PLACEHOLDER__"@) ==> filled(
            a + "__NXMPROXY_URL_PLACEHOLDER__"@ + b,
            url,
        ) == a + url + b,
{
    reveal_strlit("__NXMPROXY_URL_PLACEHOLDER__");
    law_first_occurrence_is_replaced(a, url_placeholder(), b, url);
    if !occurs(b, url_placeholder()) {
        lemma_nothing_replaced(b, url_placeholder(), url);
    }
}

/// Every argument that holds the placeholder once gets the whole link there, at its position among
/// the arguments, whatever the other arguments are.
pub proof fn law_whole_link_stands_among_the_arguments(
    tokens: Seq<Seq<char>>,
    i: int,
    a: Seq<char>,
    b: Seq<char>,
    url: Seq<char>,
)
    requires
        0 <= i < tokens.len(),
        tokens[i] == a + "__NXMPROXY_URL_PLACEHOLDER__"@ + b,
        forall|j: int|
            0 <= j < a.len() ==> !stands_at(
                a + "__NXMPROXY_URL_PLACEHOLDER__"@ + b,
                j,
                "__NXMPROXY_URL_PLACEHOLDER__"@,
            ),
        !occurs(b, "__NXMPROXY_URL_PLACEHOLDER__"@),
    ensures
        all_filled(tokens, url)[i] == a + url + b,
{
    law_whole_link_stands_in_its_place(a, b, url);
}

/// The placeholder takes the place of each `%1` of a command, from the first one on; what stands
/// before and behind them stays.
pub proof fn law_placeholder_takes_the_place_of_the_mark(a: Seq<char>, b: Seq<char>)
    requires
        forall|i: int| 0 <= i < a.len() ==> !stands_at(a + "%1"@ + b, i, "%1"@),
    ensures
        with_placeholder(a + "%1"@ + b) == a + "__NXMPROXY_URL_PLACEHOLDER__"@ + (if occurs(
            b,
            "%1"@,
        ) {
            with_placeholder(b)
        } else {
            b
        }),
{
    reveal_strlit("%1");
    law_what_stands_in_a_text_occurs(a, "%1"@, b);
    law_first_occurrence_is_replaced(a, "%1"@, b, url_placeholder());
    if !occurs(b, "%1"@) {
        lemma_nothing_replaced(b, "%1"@, url_placeholder());
    }
}

/// A command without `%1` gets the placeholder at its end, behind a space.
pub proof fn law_placeholder_comes_last_without_a_mark(template: Seq<char>)
    requires
        !occurs(template, "%1"@),
    ensures
        with_placeholder(template) == template + " "@ + "__NXMPROXY_URL_PLACEHOLDER__"@,
{
}

/// A link of a game that was assigned to a manager goes to that manager: through the pipe that was
/// registered for it, whatever pipe it had before, and by starting it once it is deregistered.
pub proof fn law_assigned_game_goes_to_its_manager(
    config: ConfigModel,
    manager: Seq<char>,
    game: Seq<char>,
    rest: Seq<char>,
    pipe: Seq<char>,
)
    requires
        game.len() > 0,
        !game.contains('/') && !game.contains('?') && !game.contains('#'),
        rest.len() == 0 || rest[0] == '/' || rest[0] == '?' || rest[0] == '#',
        encode_utf8("nxm://"@ + game + rest).len() <= 8192,
    ensures
        delivery_of(
            piped(assigned(config, manager, game), manager, pipe),
            "nxm://"@ + game + rest,
        ) == Ok::<DeliveryModel, Seq<char>>(DeliveryModel::Pipe { manager, pipe }),
        delivery_of(
            deregistered(piped(assigned(config, manager, game), manager, pipe), manager),
            "nxm://"@ + game + rest,
        ) == Ok::<DeliveryModel, Seq<char>>(DeliveryModel::Launch { manager }),
{
    law_game_reaches_to_the_first_delimiter(game, rest);
}

} // verus!
