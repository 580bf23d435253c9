//! Resolving the guild id and the bot token from arguments and environment.
use vstd::prelude::*;
use crate::args::ConnectionArgs;
use crate::error::Error;

verus! {

/// Whether every character of `s` is an ASCII digit.
pub open spec fn all_digits(s: Seq<char>) -> bool {
    forall|i: int| 0 <= i < s.len() ==> '0' <= #[trigger] s[i] <= '9'
}

/// The number that the digits of `s` spell in decimal.
pub open spec fn digits_value(s: Seq<char>) -> int
    decreases s.len(),
{
    if s.len() == 0 {
        0
    } else {
        digits_value(s.drop_last()) * 10 + (s.last() as int - '0' as int)
    }
}

/// What reading `s` as a `u64` gives: an optional `+`, then one or more
/// decimal digits whose value fits.
pub open spec fn parsed_u64(s: Seq<char>) -> Option<u64> {
    let d = if s.len() > 0 && s[0] == '+' {
        s.drop_first()
    } else {
        s
    };
    if d.len() > 0 && all_digits(d) && digits_value(d) <= u64::MAX {
        Some(digits_value(d) as u64)
    } else {
        None
    }
}

/// Relies on `u64`'s `FromStr`: an optional `+` and decimal digits whose
/// value fits in 64 bits; anything else is an error.
#[verifier::external_body]
fn parse_u64(s: &str) -> (r: Option<u64>)
    ensures
        r == parsed_u64(s@),
{
    s.parse::<u64>().ok()
}

/// The view of an optional string.
pub open spec fn opt_view(o: Option<String>) -> Option<Seq<char>> {
    match o {
        Some(s) => Some(s@),
        None => None,
    }
}

/// The guild id: the argument, else the environment's value read as a number.
pub open spec fn resolved_guild(guild_arg: Option<u64>, env_guild: Option<Seq<char>>) -> Option<u64> {
    match guild_arg {
        Some(g) => Some(g),
        None => match env_guild {
            Some(s) => parsed_u64(s),
            None => None,
        },
    }
}

/// The token: the argument, else the environment's value, else empty.
pub open spec fn resolved_token(token_arg: Option<Seq<char>>, env_token: Option<Seq<char>>) -> Seq<
    char,
> {
    match token_arg {
        Some(t) => t,
        None => match env_token {
            Some(t) => t,
            None => Seq::empty(),
        },
    }
}

/// The guild id and the bot token. The arguments come first; the values of
/// the environment variables `GUILD_ID` and `DISCORD_TOKEN` stand in for the
/// ones that are missing. The guild id is resolved first: missing
/// everywhere it is a `MissingArgument`, unreadable a `ParseArgument`. Then
/// an empty or missing token is a `MissingArgument`.
pub fn connection_settings(
    args: &ConnectionArgs,
    env_guild: Option<String>,
    env_token: Option<String>,
) -> (r: Result<(u64, String), Error>)
    ensures
        ({
            let guild = resolved_guild(args.guild_id, opt_view(env_guild));
            let token = resolved_token(opt_view(args.token), opt_view(env_token));
            match r {
                Ok((g, t)) => guild == Some(g) && t@ == token && token.len() > 0,
                Err(e) => if args.guild_id is None && env_guild is None {
                    e matches Error::MissingArgument(m) && m@ == "GUILD_ID"@
                } else if guild is None {
                    e matches Error::ParseArgument(m) && m@ == "GUILD_ID"@
                } else {
                    &&& token.len() == 0
                    &&& e matches Error::MissingArgument(m) && m@ == "DISCORD_TOKEN"@
                },
            }
        }),
{
    let guild = match args.guild_id {
        Some(g) => g,
        None => match &env_guild {
            Some(s) => match parse_u64(s.as_str()) {
                Some(g) => g,
                None => {
                    return Err(Error::ParseArgument(String::from_str("GUILD_ID")));
                },
            },
            None => {
                return Err(Error::MissingArgument(String::from_str("GUILD_ID")));
            },
        },
    };
    let token = match &args.token {
        Some(t) => t.clone(),
        None => match env_token {
            Some(t) => t,
            None => String::new(),
        },
    };
    if token.as_str().is_empty() {
        return Err(Error::MissingArgument(String::from_str("DISCORD_TOKEN")));
    }
    Ok((guild, token))
}

} // verus!
