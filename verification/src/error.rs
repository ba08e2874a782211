//! The shell's top-level error values.

use vstd::prelude::*;

verus! {

/// What a shell operation can fail with. Every variant is a returned
/// value, never an abort: the caller reports it and the session goes on.
#[derive(Clone, Debug, PartialEq)]
pub enum WrashError {
    /// A command finished with the given nonzero status code.
    NonZeroExit(i32),
    /// An input or output operation failed; the text says which.
    FailedIo(String),
    /// Any other failure, described by its text.
    Custom(String),
}

/// The description `message` returns for each variant: the status code is
/// rendered in decimal, with its sign.
pub open spec fn spec_message(e: WrashError) -> Seq<char> {
    match e {
        WrashError::NonZeroExit(n) => "command exited with nonzero exit code "@ + (if n < 0 {
            seq!['-'] + crate::text::spec_decimal((-(n as int)) as nat)
        } else {
            crate::text::spec_decimal(n as nat)
        }),
        WrashError::FailedIo(s) => "failed io operation: "@ + s@,
        WrashError::Custom(s) => "error: "@ + s@,
    }
}

impl WrashError {
    /// A human-readable description of the error.
    pub fn message(&self) -> (r: String)
        ensures
            r@ == spec_message(*self),
    {
        let mut v: Vec<char> = Vec::new();
        match self {
            WrashError::NonZeroExit(n) => {
                let mut v2 = crate::text::str_chars(
                    "command exited with nonzero exit code ",
                );
                v.append(&mut v2);
                if *n < 0 {
                    v.push('-');
                    let m = if *n == i32::MIN {
                        2147483648usize
                    } else {
                        (-*n) as usize
                    };
                    crate::text::push_decimal(&mut v, m);
                } else {
                    crate::text::push_decimal(&mut v, *n as usize);
                }
            },
            WrashError::FailedIo(s) => {
                let mut v2 = crate::text::str_chars("failed io operation: ");
                v.append(&mut v2);
                let mut v3 = crate::text::str_chars(s.as_str());
                v.append(&mut v3);
            },
            WrashError::Custom(s) => {
                let mut v2 = crate::text::str_chars("error: ");
                v.append(&mut v2);
                let mut v3 = crate::text::str_chars(s.as_str());
                v.append(&mut v3);
            },
        }
        proof {
            assert(v@ =~= spec_message(*self));
        }
        crate::text::chars_to_string(&v)
    }
}

} // verus!
