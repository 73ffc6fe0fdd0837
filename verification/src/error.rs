//! The error type shared by the whole crate.
use vstd::prelude::*;
use vstd::string::*;

verus! {

/// `std::io::Error`, carried through unchanged.
#[verifier::external_type_specification]
#[verifier::external_body]
pub struct ExIoError(std::io::Error);

/// Everything that can go wrong, by the subsystem that reports it.
#[derive(Debug)]
pub enum Error {
    Memory(String),
    Vcpu(String),
    Vm(String),
    Config(String),
    Serial(String),
    Cpuid(String),
    HypervisorError(String),
    Io(std::io::Error),
}

pub type Result<T> = std::result::Result<T, Error>;

/// What an error prints as, when `io` is the text of the wrapped I/O error.
pub open spec fn error_text(e: Error, io: Seq<char>) -> Seq<char> {
    match e {
        Error::Memory(m) => "memory error: "@ + m@,
        Error::Vcpu(m) => "vcpu error: "@ + m@,
        Error::Vm(m) => "vm error: "@ + m@,
        Error::Config(m) => "config error: "@ + m@,
        Error::Serial(m) => "serial error: "@ + m@,
        Error::Cpuid(m) => "cpuid error: "@ + m@,
        Error::HypervisorError(m) => "hypervisor error: "@ + m@,
        Error::Io(_) => "io error: "@ + io,
    }
}

impl Error {
    /// The text of the error: the subsystem, a colon and the message. An I/O
    /// error contributes its own rendering.
    pub fn message(&self) -> (r: String)
        ensures
            !(self is Io) ==> r@ == error_text(*self, Seq::empty()),
            self matches Error::Io(e) ==> exists|s: String|
                #[trigger] to_string_from_display_ensures::<std::io::Error>(&e, s)
                    && r@ == error_text(*self, s@),
    {
        let mut out: String = String::new();
        match self {
            Error::Memory(m) => {
                out.append("memory error: ");
                out.append(m.as_str());
            },
            Error::Vcpu(m) => {
                out.append("vcpu error: ");
                out.append(m.as_str());
            },
            Error::Vm(m) => {
                out.append("vm error: ");
                out.append(m.as_str());
            },
            Error::Config(m) => {
                out.append("config error: ");
                out.append(m.as_str());
            },
            Error::Serial(m) => {
                out.append("serial error: ");
                out.append(m.as_str());
            },
            Error::Cpuid(m) => {
                out.append("cpuid error: ");
                out.append(m.as_str());
            },
            Error::HypervisorError(m) => {
                out.append("hypervisor error: ");
                out.append(m.as_str());
            },
            Error::Io(e) => {
                out.append("io error: ");
                let text: String = e.to_string();
                out.append(text.as_str());
            },
        }
        out
    }
}

impl From<std::io::Error> for Error {
    fn from(e: std::io::Error) -> (r: Self) {
        Error::Io(e)
    }
}

impl vstd::std_specs::convert::FromSpecImpl<std::io::Error> for Error {
    open spec fn obeys_from_spec() -> bool {
        true
    }

    open spec fn from_spec(e: std::io::Error) -> Self {
        Error::Io(e)
    }
}

} // verus!
