//! The settings of the service.

use vstd::prelude::*;
use crate::text::{join2, optional_text, split_and_trim, split_trimmed, texts};

verus! {

/// The environment variables that the settings are read from, each as it was
/// found: absent, or with its value.
#[derive(Debug)]
pub struct Environment {
    /// `BASE_URL`
    pub base_url: Option<String>,
    /// `BIND_ADDR`
    pub bind_addr: Option<String>,
    /// `PORT`
    pub port: Option<String>,
    /// Whether `CORS_PERMISSIVE` is set, to any value.
    pub cors_permissive: bool,
    /// `CORS_ALLOWED_ORIGINS`
    pub cors_allowed_origins: Option<String>,
}

/// The settings of the service.
#[derive(Clone, Debug)]
pub struct Config {
    /// The fixed address under which the service is reached, if one is set.
    pub base_url: Option<String>,
    pub bind_addr: String,
    pub cors_permissive: bool,
    pub cors_allowed_origins: Vec<String>,
}

/// The address to listen on: the one given; else every interface at the
/// port given; else every interface at port 3000.
pub open spec fn bind_address(bind_addr: Option<Seq<char>>, port: Option<Seq<char>>) -> Seq<char> {
    match bind_addr {
        Some(addr) => addr,
        None => match port {
            Some(p) => "0.0.0.0:"@ + p,
            None => "0.0.0.0:3000"@,
        },
    }
}

/// The origins that may call the service: none are listed where all may;
/// else those given, split at commas and trimmed; else the local interface.
pub open spec fn allowed_origins(permissive: bool, origins: Option<Seq<char>>) -> Seq<Seq<char>> {
    if permissive {
        Seq::empty()
    } else {
        match origins {
            Some(list) => split_trimmed(list, ','),
            None => split_trimmed("http://localhost:3000"@, ','),
        }
    }
}

impl Config {
    /// The settings that the environment `env` asks for.
    pub fn from_env(env: Environment) -> (config: Config)
        ensures
            optional_text(config.base_url) == optional_text(env.base_url),
            config.bind_addr@ == bind_address(
                optional_text(env.bind_addr),
                optional_text(env.port),
            ),
            config.cors_permissive == env.cors_permissive,
            texts(config.cors_allowed_origins@) == allowed_origins(
                env.cors_permissive,
                optional_text(env.cors_allowed_origins),
            ),
    {
        let bind_addr = match env.bind_addr {
            Some(addr) => addr,
            None => match env.port {
                Some(p) => join2("0.0.0.0:", p.as_str()),
                None => String::from_str("0.0.0.0:3000"),
            },
        };
        let cors_allowed_origins = if env.cors_permissive {
            let none: Vec<String> = Vec::new();
            assert(texts(none@) =~= Seq::<Seq<char>>::empty());
            none
        } else {
            match env.cors_allowed_origins {
                Some(list) => split_and_trim(list.as_str(), ','),
                None => split_and_trim("http://localhost:3000", ','),
            }
        };
        Config {
            base_url: env.base_url,
            bind_addr,
            cors_permissive: env.cors_permissive,
            cors_allowed_origins,
        }
    }

    /// The lines that announce the service at startup: where it listens, and
    /// where its web interface is found.
    pub open spec fn startup_lines(self) -> Seq<Seq<char>> {
        seq![
            "Listening on "@ + self.bind_addr@,
            match self.base_url {
                Some(url) => "Web interface available at: "@ + url@,
                None => "No BASE_URL set; Web interface available at http://localhost:3000"@,
            },
        ]
    }

    /// The lines to log at startup.
    pub fn log_startup_info(&self) -> (lines: Vec<String>)
        ensures
            texts(lines@) == self.startup_lines(),
    {
        let mut lines: Vec<String> = Vec::new();
        lines.push(join2("Listening on ", self.bind_addr.as_str()));
        match &self.base_url {
            Some(url) => {
                lines.push(join2("Web interface available at: ", url.as_str()));
            },
            None => {
                lines.push(
                    String::from_str(
                        "No BASE_URL set; Web interface available at http://localhost:3000",
                    ),
                );
            },
        }
        assert(texts(lines@) =~= self.startup_lines());
        lines
    }
}

} // verus!
