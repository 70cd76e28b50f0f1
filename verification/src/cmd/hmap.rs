//! The commands on hashes.

use vstd::prelude::*;
use vstd::std_specs::convert::TryFromSpecImpl;

use crate::cmd::{
    CommandError, extract_args, HGet, hget_request, HGetAll, hgetall_request, HSet, hset_request,
    take_text, take_first, validate_command,
};
use crate::frame::{frames_view, RespArray};

verus! {

impl TryFromSpecImpl<RespArray> for HGet {
    open spec fn obeys_try_from_spec() -> bool {
        false
    }

    open spec fn try_from_spec(value: RespArray) -> Result<Self, Self::Error> {
        arbitrary()
    }
}

impl TryFrom<RespArray> for HGet {
    type Error = CommandError;

    /// An `hget` command: the name, a key and a field.
    fn try_from(value: RespArray) -> (r: Result<Self, CommandError>)
        ensures
            match hget_request(value@) {
                Ok((key, field)) => r matches Ok(hget) && hget.key@ == key && hget.field@ == field,
                Err(message) => r matches Err(e) && e@ == message,
            },
    {
        let names = ["hget"];
        proof {
            assert(crate::cmd::names_view(names@) =~= seq!["hget"@]);
        }
        match validate_command(&value, names.as_slice(), 2) {
            Err(e) => {
                return Err(e);
            },
            Ok(_) => {},
        }
        let ghost items = value@;
        let mut args = match extract_args(value, 1) {
            Err(e) => {
                return Err(e);
            },
            Ok(args) => args,
        };
        assert(frames_view(args@) =~= items.skip(1));
        let key = take_text(take_first(&mut args));
        let field = take_text(take_first(&mut args));
        match (key, field) {
            (Some(key), Some(field)) => Ok(HGet { key, field }),
            _ => Err(CommandError::InvalidArgument("Invalid key or field".to_string())),
        }
    }
}

impl TryFromSpecImpl<RespArray> for HSet {
    open spec fn obeys_try_from_spec() -> bool {
        false
    }

    open spec fn try_from_spec(value: RespArray) -> Result<Self, Self::Error> {
        arbitrary()
    }
}

impl TryFrom<RespArray> for HSet {
    type Error = CommandError;

    /// An `hset` command: the name, a key, a field, and a value of any kind, which is kept as it is.
    fn try_from(value: RespArray) -> (r: Result<Self, CommandError>)
        ensures
            match hset_request(value@) {
                Ok((key, field, value)) => r matches Ok(hset) && hset.key@ == key && hset.field@ == field
                    && hset.value@ == value,
                Err(message) => r matches Err(e) && e@ == message,
            },
    {
        let names = ["hset"];
        proof {
            assert(crate::cmd::names_view(names@) =~= seq!["hset"@]);
        }
        match validate_command(&value, names.as_slice(), 3) {
            Err(e) => {
                return Err(e);
            },
            Ok(_) => {},
        }
        let ghost items = value@;
        let mut args = match extract_args(value, 1) {
            Err(e) => {
                return Err(e);
            },
            Ok(args) => args,
        };
        assert(frames_view(args@) =~= items.skip(1));
        let key = take_text(take_first(&mut args));
        let field = take_text(take_first(&mut args));
        let value = take_first(&mut args);
        match (key, field) {
            (Some(key), Some(field)) => Ok(HSet { key, field, value }),
            _ => Err(CommandError::InvalidArgument("Invalid key or field".to_string())),
        }
    }
}

impl TryFromSpecImpl<RespArray> for HGetAll {
    open spec fn obeys_try_from_spec() -> bool {
        false
    }

    open spec fn try_from_spec(value: RespArray) -> Result<Self, Self::Error> {
        arbitrary()
    }
}

impl TryFrom<RespArray> for HGetAll {
    type Error = CommandError;

    /// An `hgetall` command: the name and one key.
    fn try_from(value: RespArray) -> (r: Result<Self, CommandError>)
        ensures
            match hgetall_request(value@) {
                Ok(key) => r matches Ok(hgetall) && hgetall.key@ == key,
                Err(message) => r matches Err(e) && e@ == message,
            },
    {
        let names = ["hgetall"];
        proof {
            assert(crate::cmd::names_view(names@) =~= seq!["hgetall"@]);
        }
        match validate_command(&value, names.as_slice(), 1) {
            Err(e) => {
                return Err(e);
            },
            Ok(_) => {},
        }
        let ghost items = value@;
        let mut args = match extract_args(value, 1) {
            Err(e) => {
                return Err(e);
            },
            Ok(args) => args,
        };
        assert(frames_view(args@) =~= items.skip(1));
        match take_text(take_first(&mut args)) {
            Some(key) => Ok(HGetAll { key }),
            None => Err(CommandError::InvalidArgument("Invalid key".to_string())),
        }
    }
}

} // verus!
