//! The commands on plain keys.

use vstd::prelude::*;
use vstd::std_specs::convert::TryFromSpecImpl;

use crate::cmd::{
    CommandError, extract_args, Get, get_request, take_text, set_request, SetCommand, take_first,
    validate_command,
};
use crate::frame::{frames_view, RespArray};

verus! {

impl TryFromSpecImpl<RespArray> for Get {
    open spec fn obeys_try_from_spec() -> bool {
        false
    }

    open spec fn try_from_spec(value: RespArray) -> Result<Self, Self::Error> {
        arbitrary()
    }
}

impl TryFrom<RespArray> for Get {
    type Error = CommandError;

    /// A `get` command: the name and one key.
    fn try_from(value: RespArray) -> (r: Result<Self, CommandError>)
        ensures
            match get_request(value@) {
                Ok(key) => r matches Ok(get) && get.key@ == key,
                Err(message) => r matches Err(e) && e@ == message,
            },
    {
        let names = ["get"];
        proof {
            assert(crate::cmd::names_view(names@) =~= seq!["get"@]);
        }
        match validate_command(&value, names.as_slice(), 1) {
            Err(e) => {
                return Err(e);
            },
            Ok(_) => {},
        }
        let ghost items = value@;
        let mut args = match extract_args(value, 1) {
            Err(e) => {
                return Err(e);
            },
            Ok(args) => args,
        };
        assert(frames_view(args@) =~= items.skip(1));
        match take_text(take_first(&mut args)) {
            Some(key) => Ok(Get { key }),
            None => Err(CommandError::InvalidArgument("Invalid key".to_string())),
        }
    }
}

impl TryFromSpecImpl<RespArray> for SetCommand {
    open spec fn obeys_try_from_spec() -> bool {
        false
    }

    open spec fn try_from_spec(value: RespArray) -> Result<Self, Self::Error> {
        arbitrary()
    }
}

impl TryFrom<RespArray> for SetCommand {
    type Error = CommandError;

    /// A `set` command: the name, a key, and a value of any kind, which is kept as it is.
    fn try_from(value: RespArray) -> (r: Result<Self, CommandError>)
        ensures
            match set_request(value@) {
                Ok((key, value)) => r matches Ok(set) && set.key@ == key && set.value@ == value,
                Err(message) => r matches Err(e) && e@ == message,
            },
    {
        let names = ["set"];
        proof {
            assert(crate::cmd::names_view(names@) =~= seq!["set"@]);
        }
        match validate_command(&value, names.as_slice(), 2) {
            Err(e) => {
                return Err(e);
            },
            Ok(_) => {},
        }
        let ghost items = value@;
        let mut args = match extract_args(value, 1) {
            Err(e) => {
                return Err(e);
            },
            Ok(args) => args,
        };
        assert(frames_view(args@) =~= items.skip(1));
        let key = take_text(take_first(&mut args));
        let value = take_first(&mut args);
        match key {
            Some(key) => Ok(SetCommand { key, value }),
            None => Err(CommandError::InvalidArgument("Invalid key or value".to_string())),
        }
    }
}

} // verus!
