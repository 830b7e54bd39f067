//! The dialect in which a source file is parsed, chosen by the file's
//! extension.

use vstd::prelude::*;
use vstd::string::StringSliceAdditionalSpecFns;

verus! {

/// A dialect of the source language.
#[derive(Clone, Copy, Debug, PartialEq, Eq, Structural)]
pub enum Dialect {
    /// ECMAScript with markup: `js` and `jsx`.
    Script,
    /// TypeScript: `ts`.
    TypeScript,
    /// TypeScript with markup: `tsx`.
    TypeScriptMarkup,
}

/// Why no dialect was chosen.
#[derive(Clone, Copy, Debug, PartialEq, Eq, Structural)]
pub enum DialectError {
    /// The file has no extension.
    MissingExtension,
    /// The extension is none of `js`, `jsx`, `ts`, `tsx`.
    UnknownExtension,
}

/// The dialect for an extension, given as bytes.
pub open spec fn dialect_of(extension: Option<Seq<u8>>) -> Result<Dialect, DialectError> {
    match extension {
        None => Err(DialectError::MissingExtension),
        Some(e) => if e == seq![0x6au8, 0x73u8] || e == seq![0x6au8, 0x73u8, 0x78u8] {
            Ok(Dialect::Script)
        } else if e == seq![0x74u8, 0x73u8] {
            Ok(Dialect::TypeScript)
        } else if e == seq![0x74u8, 0x73u8, 0x78u8] {
            Ok(Dialect::TypeScriptMarkup)
        } else {
            Err(DialectError::UnknownExtension)
        },
    }
}

/// The bytes of an extension, where there is one.
pub open spec fn extension_bytes(extension: Option<&str>) -> Option<Seq<u8>> {
    match extension {
        Some(e) => Some(e.spec_bytes()),
        None => None,
    }
}

/// Chooses the dialect for an extension. The comparison is exact: `JS` is
/// unknown.
pub fn dialect_for_extension(extension: Option<&str>) -> (r: Result<Dialect, DialectError>)
    ensures
        r == dialect_of(extension_bytes(extension)),
{
    let e = match extension {
        None => { return Err(DialectError::MissingExtension); },
        Some(e) => e.as_bytes(),
    };
    let ghost js = seq![0x6au8, 0x73u8];
    let ghost jsx = seq![0x6au8, 0x73u8, 0x78u8];
    let ghost ts = seq![0x74u8, 0x73u8];
    let ghost tsx = seq![0x74u8, 0x73u8, 0x78u8];
    proof {
        assert(js.len() == 2 && js[0] == 0x6a && js[1] == 0x73);
        assert(jsx.len() == 3 && jsx[0] == 0x6a && jsx[1] == 0x73 && jsx[2] == 0x78);
        assert(ts.len() == 2 && ts[0] == 0x74 && ts[1] == 0x73);
        assert(tsx.len() == 3 && tsx[0] == 0x74 && tsx[1] == 0x73 && tsx[2] == 0x78);
    }
    if e.len() == 2 && e[0] == 0x6a && e[1] == 0x73 {
        assert(e@ =~= js);
        Ok(Dialect::Script)
    } else if e.len() == 3 && e[0] == 0x6a && e[1] == 0x73 && e[2] == 0x78 {
        assert(e@ =~= jsx);
        Ok(Dialect::Script)
    } else if e.len() == 2 && e[0] == 0x74 && e[1] == 0x73 {
        assert(e@ =~= ts);
        Ok(Dialect::TypeScript)
    } else if e.len() == 3 && e[0] == 0x74 && e[1] == 0x73 && e[2] == 0x78 {
        assert(e@ =~= tsx);
        Ok(Dialect::TypeScriptMarkup)
    } else {
        Err(DialectError::UnknownExtension)
    }
}

/// The extension of a path. This is `std::path::Path::extension`, which
/// reads a path by the rules of the platform; nothing is claimed of what it
/// returns.
#[verifier::external_body]
fn extension_of(path: &str) -> Option<String> {
    match std::path::Path::new(path).extension() {
        Some(extension) => extension.to_str().map(|e| e.to_owned()),
        None => None,
    }
}

/// Chooses the dialect for a file by the extension of its path. Which part
/// of a path is its extension the platform decides; the dialect is the one
/// that [`dialect_of`] gives for it.
pub fn get_syntax_of_file(path: &str) -> (r: Result<Dialect, DialectError>)
    ensures
        exists|extension: Option<Seq<u8>>| r == dialect_of(extension),
{
    match extension_of(path) {
        Some(extension) => {
            let known = extension.as_str();
            let r = dialect_for_extension(Some(known));
            assert(r == dialect_of(Some(known.spec_bytes())));
            r
        },
        None => {
            assert(dialect_of(None) == Err::<Dialect, DialectError>(
                DialectError::MissingExtension,
            ));
            Err(DialectError::MissingExtension)
        },
    }
}

} // verus!
