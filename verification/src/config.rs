//! The settings of the server, each read from a variable of the environment.

use vstd::prelude::*;
use crate::decimal::{parse_u16_text, read_u16};
use crate::text::{chars_of, same_text};

verus! {

/// The settings.
#[derive(Clone, Copy, Debug, PartialEq, Eq, Structural)]
pub enum Config {
    Address,
    GitRepo,
    GitAssetsUrl,
    Workdir,
    RedisHost,
    RedisPort,
    DiscordToken,
    DiscordChannels,
    DiscordReputationFetchUrl,
}

/// The value of a variable in an environment: that of the first pair with
/// the name.
pub open spec fn env_value(env: Seq<(String, String)>, name: Seq<char>) -> Option<Seq<char>>
    decreases env.len(),
{
    if env.len() == 0 {
        None
    } else if env[0].0@ == name {
        Some(env[0].1@)
    } else {
        env_value(env.drop_first(), name)
    }
}

impl Config {
    /// The name of the variable that holds the setting.
    pub open spec fn var_name(&self) -> Seq<char> {
        match self {
            Config::Address => "SCSRV_ADDRESS"@,
            Config::GitRepo => "SCSRV_GIT_REPO"@,
            Config::GitAssetsUrl => "SCSRV_GIT_ASSETS_URL"@,
            Config::Workdir => "SCSRV_WORKDIR"@,
            Config::RedisHost => "SCSRV_REDIS_HOST"@,
            Config::RedisPort => "SCSRV_REDIS_PORT"@,
            Config::DiscordToken => "SCSRV_DISCORD_TOKEN"@,
            Config::DiscordChannels => "SCSRV_DISCORD_CHANNELS"@,
            Config::DiscordReputationFetchUrl => "SCSRV_DISCORD_REPUTATION_FETCH_URL"@,
        }
    }

    /// The name of the variable that holds the setting.
    pub fn name(&self) -> (r: &'static str)
        ensures
            r@ == self.var_name(),
    {
        match self {
            Config::Address => "SCSRV_ADDRESS",
            Config::GitRepo => "SCSRV_GIT_REPO",
            Config::GitAssetsUrl => "SCSRV_GIT_ASSETS_URL",
            Config::Workdir => "SCSRV_WORKDIR",
            Config::RedisHost => "SCSRV_REDIS_HOST",
            Config::RedisPort => "SCSRV_REDIS_PORT",
            Config::DiscordToken => "SCSRV_DISCORD_TOKEN",
            Config::DiscordChannels => "SCSRV_DISCORD_CHANNELS",
            Config::DiscordReputationFetchUrl => "SCSRV_DISCORD_REPUTATION_FETCH_URL",
        }
    }

    /// The value of the setting in an environment, if it is set.
    pub fn get_or_none(&self, env: &Vec<(String, String)>) -> (r: Option<String>)
        ensures
            match r {
                Some(v) => env_value(env@, self.var_name()) == Some(v@),
                None => env_value(env@, self.var_name()) is None,
            },
    {
        let name = self.name();
        let mut i: usize = 0;
        assert(env@.subrange(0, env@.len() as int) =~= env@);
        while i < env.len()
            invariant
                i <= env.len(),
                name@ == self.var_name(),
                env_value(env@, name@) == env_value(env@.subrange(i as int, env@.len() as int), name@),
            decreases env.len() - i,
        {
            let ghost rest = env@.subrange(i as int, env@.len() as int);
            assert(rest[0] == env@[i as int]);
            assert(rest.drop_first() =~= env@.subrange(i as int + 1, env@.len() as int));
            if same_text(env[i].0.as_str(), name) {
                return Some(env[i].1.clone());
            }
            i += 1;
        }
        None
    }

    /// The first of the settings that the server cannot run without and that
    /// the environment lacks: the address, the repository, the address of
    /// the assets, the working directory, the host and the port of the
    /// store, looked for in this order.
    pub open spec fn first_missing(env: Seq<(String, String)>) -> Option<Config> {
        if env_value(env, Config::Address.var_name()) is None {
            Some(Config::Address)
        } else if env_value(env, Config::GitRepo.var_name()) is None {
            Some(Config::GitRepo)
        } else if env_value(env, Config::GitAssetsUrl.var_name()) is None {
            Some(Config::GitAssetsUrl)
        } else if env_value(env, Config::Workdir.var_name()) is None {
            Some(Config::Workdir)
        } else if env_value(env, Config::RedisHost.var_name()) is None {
            Some(Config::RedisHost)
        } else if env_value(env, Config::RedisPort.var_name()) is None {
            Some(Config::RedisPort)
        } else {
            None
        }
    }

    /// Makes sure all required config values are set: gives the first one
    /// that is missing.
    pub fn check(env: &Vec<(String, String)>) -> (r: Result<(), Config>)
        ensures
            match r {
                Ok(()) => Self::first_missing(env@) is None,
                Err(c) => Self::first_missing(env@) == Some(c),
            },
    {
        if Config::Address.get_or_none(env).is_none() {
            return Err(Config::Address);
        }
        if Config::GitRepo.get_or_none(env).is_none() {
            return Err(Config::GitRepo);
        }
        if Config::GitAssetsUrl.get_or_none(env).is_none() {
            return Err(Config::GitAssetsUrl);
        }
        if Config::Workdir.get_or_none(env).is_none() {
            return Err(Config::Workdir);
        }
        if Config::RedisHost.get_or_none(env).is_none() {
            return Err(Config::RedisHost);
        }
        if Config::RedisPort.get_or_none(env).is_none() {
            return Err(Config::RedisPort);
        }
        Ok(())
    }

    /// The host and the port of the store: `None` where one of them is not
    /// set or the port is no number from 0 to 65535.
    pub fn redis_config(env: &Vec<(String, String)>) -> (r: Option<(String, u16)>)
        ensures
            match r {
                Some(x) => env_value(env@, Config::RedisHost.var_name()) == Some(x.0@) && (
                env_value(env@, Config::RedisPort.var_name()) matches Some(p) && parse_u16_text(p)
                    == Some(x.1)),
                None => env_value(env@, Config::RedisHost.var_name()) is None || env_value(
                    env@,
                    Config::RedisPort.var_name(),
                ) is None || parse_u16_text(env_value(env@, Config::RedisPort.var_name())->0) is None,
            },
    {
        let host = match Config::RedisHost.get_or_none(env) {
            Some(h) => h,
            None => {
                return None;
            },
        };
        let port_text = match Config::RedisPort.get_or_none(env) {
            Some(p) => p,
            None => {
                return None;
            },
        };
        let chars = chars_of(port_text.as_str());
        match read_u16(&chars) {
            Some(port) => Some((host, port)),
            None => None,
        }
    }
}

} // verus!
