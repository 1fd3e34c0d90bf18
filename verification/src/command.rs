//! The client's command language: `get <key>`, `put <key> <value...>`,
//! `list` and `ping <message...>`.
use vstd::prelude::*;
use crate::model::{RpcParams, RpcRequest, ParamsView, spec_method_name, method_name};
use crate::text::{spec_words, spec_join, spec_is_word, split_whitespace, join_from};

verus! {

/// Why a command line was refused.
#[derive(Debug, Clone, Copy, PartialEq, Eq, Structural)]
pub enum CommandError {
    /// `put` with a key and no value.
    MissingPutValue,
    /// Anything that is not one of the four commands.
    UnknownCommand,
}

impl CommandError {
    /// The text shown to the user for this error.
    pub fn message(&self) -> (r: String)
        ensures
            r@ == spec_command_error_message(*self),
    {
        match self {
            CommandError::MissingPutValue => String::from_str("PUT requires a value"),
            CommandError::UnknownCommand => String::from_str("Unknown command"),
        }
    }
}

/// The text shown to the user for each command error.
pub open spec fn spec_command_error_message(e: CommandError) -> Seq<char> {
    match e {
        CommandError::MissingPutValue => "PUT requires a value"@,
        CommandError::UnknownCommand => "Unknown command"@,
    }
}

/// The parameters that a command made of `words` asks for.
pub open spec fn spec_command_params(words: Seq<Seq<char>>) -> Result<ParamsView, CommandError> {
    if words.len() == 2 && words[0] == "get"@ {
        Ok(ParamsView::Get { key: words[1] })
    } else if words.len() >= 2 && words[0] == "put"@ {
        if words.len() == 2 {
            Err(CommandError::MissingPutValue)
        } else {
            Ok(ParamsView::Put { key: words[1], value: spec_join(words.skip(2), " "@) })
        }
    } else if words.len() == 1 && words[0] == "list"@ {
        Ok(ParamsView::ListKeys)
    } else if words.len() >= 1 && words[0] == "ping"@ {
        Ok(ParamsView::Ping { message: spec_join(words.skip(1), " "@) })
    } else {
        Err(CommandError::UnknownCommand)
    }
}

/// Parses a client command line into a request with identifier `id`.
///
/// The line is split into whitespace-separated words; the value of `put` and
/// the message of `ping` are the remaining words joined by single spaces.
pub fn parse_client_command(input: &str, id: u64) -> (r: Result<RpcRequest, CommandError>)
    ensures
        match r {
            Ok(req) => {
                &&& spec_command_params(spec_words(input@)) == Ok::<ParamsView, CommandError>(
                    req.params@,
                )
                &&& req.id == id
                &&& req.method@ == spec_method_name(req.params@)
            },
            Err(e) => spec_command_params(spec_words(input@)) == Err::<ParamsView, CommandError>(e),
        },
{
    let words = split_whitespace(input);
    let ghost w = words.deep_view();
    let n = words.len();
    let get_word = String::from_str("get");
    let put_word = String::from_str("put");
    let list_word = String::from_str("list");
    let ping_word = String::from_str("ping");
    let params = if n == 2 && words[0] == get_word {
        RpcParams::Get { key: words[1].clone() }
    } else if n >= 2 && words[0] == put_word {
        if n == 2 {
            return Err(CommandError::MissingPutValue);
        }
        RpcParams::Put { key: words[1].clone(), value: join_from(&words, 2, " ") }
    } else if n == 1 && words[0] == list_word {
        RpcParams::ListKeys
    } else if n >= 1 && words[0] == ping_word {
        RpcParams::Ping { message: join_from(&words, 1, " ") }
    } else {
        return Err(CommandError::UnknownCommand);
    };
    let method = method_name(&params);
    Ok(RpcRequest { id, method, params })
}

/// A `put` line made of a key and value words, each without whitespace,
/// separated by single spaces, reads back as that key and those words joined
/// by single spaces.
pub proof fn law_put_command_roundtrip(key: Seq<char>, words: Seq<Seq<char>>)
    requires
        spec_is_word(key),
        words.len() > 0,
        forall|i: int| 0 <= i < words.len() ==> spec_is_word(#[trigger] words[i]),
    ensures
        spec_command_params(spec_words("put "@ + key + " "@ + spec_join(words, " "@))) == Ok::<
            ParamsView,
            CommandError,
        >(ParamsView::Put { key, value: spec_join(words, " "@) }),
{
    reveal_strlit("put ");
    reveal_strlit("put");
    reveal_strlit(" ");
    assert(" "@ == seq![' ']);
    let put = "put"@;
    assert(put == seq!['p', 'u', 't']);
    assert(spec_is_word(put)) by {
        assert forall|i: int| 0 <= i < put.len() implies !crate::text::spec_is_whitespace(
            #[trigger] put[i],
        ) by {
            assert(put[i] == 'p' || put[i] == 'u' || put[i] == 't');
        }
    }
    crate::text::lemma_words_append_word(Seq::<char>::empty(), put);
    assert(Seq::<char>::empty() + put == put);
    assert(spec_words(Seq::<char>::empty()) == Seq::<Seq<char>>::empty());
    assert(crate::text::spec_is_whitespace(' '));
    crate::text::lemma_words_push_whitespace(put, ' ');
    let a = put.push(' ');
    crate::text::lemma_words_append_word(a, key);
    let b = (a + key).push(' ');
    crate::text::lemma_words_push_whitespace(a + key, ' ');
    crate::text::lemma_words_of_joined(b, words);
    assert("put "@ + key + " "@ + spec_join(words, " "@) == b + spec_join(words, seq![' ']));
    let all = spec_words(b + spec_join(words, seq![' ']));
    assert(all == seq![put, key] + words);
    assert(all[0] == put && all[1] == key);
    assert(all.skip(2) == words);
}

} // verus!
