use vstd::prelude::*;

verus! {

/// Where the server listens and how clients log in.
#[derive(Debug)]
pub struct Env {
    pub auth_user_name: String,
    pub auth_pass: String,
    pub webrtc_address: String,
    pub signaling_address: String,
    pub server_public_address: String,
    pub server_init_address: String,
}

impl Default for Env {
    /// The settings for development on one machine.
    fn default() -> (e: Self)
        ensures
            e.auth_user_name@ == "charlie"@,
            e.auth_pass@ == "12345"@,
            e.webrtc_address@ == "127.0.0.1:14192"@,
            e.signaling_address@ == "127.0.0.1:14191"@,
            e.server_public_address@ == "http://127.0.0.1:14192"@,
            e.server_init_address@ == "http://127.0.0.1:14191"@,
    {
        Env {
            auth_user_name: String::from_str("charlie"),
            auth_pass: String::from_str("12345"),
            webrtc_address: String::from_str("127.0.0.1:14192"),
            signaling_address: String::from_str("127.0.0.1:14191"),
            server_public_address: String::from_str("http://127.0.0.1:14192"),
            server_init_address: String::from_str("http://127.0.0.1:14191"),
        }
    }
}

/// The kind of installation the program runs in.
#[derive(Debug, PartialEq, Eq, Structural, Clone, Copy)]
pub enum Environment {
    Dev,
    Prod,
}

impl Environment {
    /// "PROD" names the production installation; any other name, development.
    pub fn from(value: &str) -> (e: Self)
        ensures
            e == (if value@ == "PROD"@ {
                Environment::Prod
            } else {
                Environment::Dev
            }),
    {
        proof {
            reveal_strlit("PROD");
        }
        if value.unicode_len() == 4 && value.get_char(0) == 'P' && value.get_char(1) == 'R'
            && value.get_char(2) == 'O' && value.get_char(3) == 'D' {
            assert(value@ =~= "PROD"@);
            return Self::Prod;
        }
        Self::Dev
    }
}

} // verus!
