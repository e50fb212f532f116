//! Settings of a client: the log level and the platform it renders for.
use vstd::prelude::*;

verus! {

/// How much to log.
#[derive(Debug, Clone, Copy, PartialEq, Eq, Structural)]
pub enum LogLevel {
    Trace,
    Debug,
    Info,
    Warn,
    Error,
}

impl Default for LogLevel {
    fn default() -> (r: Self)
        ensures
            r == LogLevel::Info,
    {
        LogLevel::Info
    }
}

/// One of the supported platforms.
#[derive(Debug, Clone)]
pub enum Platform {
    Swiftui,
    Jetpack,
    Other(String),
}

/// The name of the SwiftUI platform.
pub open spec fn swiftui_name() -> Seq<char> {
    seq!['s', 'w', 'i', 'f', 't', 'u', 'i']
}

/// The name of the Jetpack platform.
pub open spec fn jetpack_name() -> Seq<char> {
    seq!['j', 'e', 't', 'p', 'a', 'c', 'k']
}

/// The name of a platform.
pub open spec fn platform_name(p: Platform) -> Seq<char> {
    match p {
        Platform::Swiftui => swiftui_name(),
        Platform::Jetpack => jetpack_name(),
        Platform::Other(o) => o@,
    }
}

/// The platform a name reads as.
pub open spec fn platform_of(value: String) -> Platform {
    if value@ == swiftui_name() {
        Platform::Swiftui
    } else if value@ == jetpack_name() {
        Platform::Jetpack
    } else {
        Platform::Other(value)
    }
}

impl Platform {
    /// The name of the platform, as it is passed on connection.
    pub fn to_string(&self) -> (r: String)
        ensures
            r@ == platform_name(*self),
    {
        match self {
            Platform::Swiftui => {
                proof { reveal_strlit("swiftui"); }
                let r = String::from_str("swiftui");
                assert(r@ =~= swiftui_name());
                r
            },
            Platform::Jetpack => {
                proof { reveal_strlit("jetpack"); }
                let r = String::from_str("jetpack");
                assert(r@ =~= jetpack_name());
                r
            },
            Platform::Other(o) => o.clone(),
        }
    }

    /// The platform to render for by default: SwiftUI on Apple systems,
    /// Jetpack on Android, and an undefined format elsewhere.
    pub fn default_for(apple: bool, android: bool) -> (r: Self)
        ensures
            apple ==> r is Swiftui,
            !apple && android ==> r is Jetpack,
            !apple && !android ==> (r matches Platform::Other(o) && o@ == seq!['u', 'n', 'd', 'e', 'f', 'i', 'n', 'e', 'd', '_', 'f', 'o', 'r', 'm', 'a', 't']),
    {
        if apple {
            Platform::Swiftui
        } else if android {
            Platform::Jetpack
        } else {
            proof { reveal_strlit("undefined_format"); }
            let o = String::from_str("undefined_format");
            assert(o@ =~= seq!['u', 'n', 'd', 'e', 'f', 'i', 'n', 'e', 'd', '_', 'f', 'o', 'r', 'm', 'a', 't']);
            Platform::Other(o)
        }
    }
}

impl From<String> for Platform {
    fn from(value: String) -> (r: Self) {
        proof {
            reveal_strlit("swiftui");
            reveal_strlit("jetpack");
        }
        let s = String::from_str("swiftui");
        let j = String::from_str("jetpack");
        assert(s@ =~= swiftui_name());
        assert(j@ =~= jetpack_name());
        if value == s {
            Platform::Swiftui
        } else if value == j {
            Platform::Jetpack
        } else {
            Platform::Other(value)
        }
    }
}

impl vstd::std_specs::convert::FromSpecImpl<String> for Platform {
    open spec fn obeys_from_spec() -> bool {
        true
    }

    open spec fn from_spec(value: String) -> Platform {
        platform_of(value)
    }
}

} // verus!
