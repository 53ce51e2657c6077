use vstd::prelude::*;
use vstd::utf8::{decode_utf8, valid_utf8};
use naga::valid::{Capabilities, ModuleInfo, ValidationFlags, Validator};
use crate::wgsl_modules::Module;
use crate::wgsl_path::{Comp, render};

verus! {

/// Whether the WGSL front end of `naga` accepts the source.
pub uninterp spec fn wgsl_parses(source: Seq<char>) -> bool;

/// The module that the WGSL front end of `naga` makes of an accepted source.
pub uninterp spec fn wgsl_module(source: Seq<char>) -> naga::Module;

/// The diagnostic that `naga` renders for a source it refuses, attributed to
/// `path`.
pub uninterp spec fn wgsl_parse_message(source: Seq<char>, path: Seq<char>) -> Seq<char>;

/// The info that a validator with the given flags and capabilities gives of a
/// module it accepts.
pub uninterp spec fn wgsl_module_info(
    module: naga::Module,
    flags: ValidationFlags,
    capabilities: Capabilities,
) -> ModuleInfo;

/// Whether a validator with the given flags and capabilities accepts the module.
pub uninterp spec fn wgsl_validates(
    module: naga::Module,
    flags: ValidationFlags,
    capabilities: Capabilities,
) -> bool;

/// The diagnostic that `naga` renders for a module that a validator with the given
/// flags and capabilities refuses, on `source` and attributed to `path`.
pub uninterp spec fn wgsl_validation_message(
    module: naga::Module,
    flags: ValidationFlags,
    capabilities: Capabilities,
    source: Seq<char>,
    path: Seq<char>,
) -> Seq<char>;

/// The text of bytes, with each invalid UTF-8 sequence replaced by U+FFFD.
pub uninterp spec fn lossy(bytes: Seq<u8>) -> Seq<char>;

/// `naga::front::wgsl::parse_str`, and for a refused source
/// `ParseError::emit_to_string_with_path` on that source and `path`: the module,
/// or the diagnostic. Both are functions of their arguments; their contents are
/// not stated.
#[verifier::external_body]
fn parse_wgsl(source: &str, path: &str) -> (r: Result<naga::Module, String>)
    ensures
        r is Ok == wgsl_parses(source@),
        r matches Ok(m) ==> m == wgsl_module(source@),
        r matches Err(e) ==> e@ == wgsl_parse_message(source@, path@),
{
    match naga::front::wgsl::parse_str(source) {
        Ok(module) => Ok(module),
        Err(err) => Err(err.emit_to_string_with_path(source, path)),
    }
}

/// `Validator::validate` on a new validator (`Validator::new`) with the given
/// flags and capabilities, and for a refused module
/// `WithSpan::emit_to_string_with_path` on `source` and `path`: the module's info,
/// or the diagnostic. Whether the module is accepted, the info and the diagnostic
/// are functions of the arguments; the contents of the info and of the diagnostic
/// are not stated, nor whether the rendering succeeds where the error's spans lie
/// outside `source`.
#[verifier::external_body]
fn validate_module(
    flags: ValidationFlags,
    capabilities: Capabilities,
    module: &naga::Module,
    source: &str,
    path: &str,
) -> (r: Result<ModuleInfo, String>)
    ensures
        r is Ok == wgsl_validates(*module, flags, capabilities),
        r matches Ok(i) ==> i == wgsl_module_info(*module, flags, capabilities),
        r matches Err(e) ==> e@ == wgsl_validation_message(
            *module,
            flags,
            capabilities,
            source@,
            path@,
        ),
{
    match Validator::new(flags, capabilities).validate(module) {
        Ok(info) => Ok(info),
        Err(err) => Err(err.emit_to_string_with_path(source, path)),
    }
}

/// `String::from_utf8_lossy`: the text of the bytes, which is their decoding
/// where they are valid UTF-8.
#[verifier::external_body]
pub(crate) fn lossy_text(bytes: &[u8]) -> (s: String)
    ensures
        s@ == lossy(bytes@),
        valid_utf8(bytes@) ==> s@ == decode_utf8(bytes@),
{
    String::from_utf8_lossy(bytes).into_owned()
}

/// The `naga` module that the WGSL source describes; a parse error is reported as
/// its diagnostic, attributed to `path`.
pub fn naga_module(source: &str, path: &str) -> (r: Result<naga::Module, String>)
    ensures
        r is Ok == wgsl_parses(source@),
        r matches Ok(m) ==> m == wgsl_module(source@),
        r matches Err(e) ==> e@ == wgsl_parse_message(source@, path@),
{
    parse_wgsl(source, path)
}

/// Validates a `naga` module with the given flags and capabilities; an error is
/// reported as its diagnostic on `source`, attributed to `path`.
pub fn naga_validate(
    config: (ValidationFlags, Capabilities),
    module: &naga::Module,
    source: &str,
    path: &str,
) -> (r: Result<ModuleInfo, String>)
    ensures
        r is Ok == wgsl_validates(*module, config.0, config.1),
        r matches Ok(i) ==> i == wgsl_module_info(*module, config.0, config.1),
        r matches Err(e) ==> e@ == wgsl_validation_message(
            *module,
            config.0,
            config.1,
            source@,
            path@,
        ),
{
    validate_module(config.0, config.1, module, source, path)
}

/// The text by which a module's path is reported: the decoding of its bytes, or
/// where they are not valid UTF-8, their lossy text.
pub open spec fn path_text(p: Seq<Comp>) -> Seq<char> {
    if valid_utf8(render(p)) {
        decode_utf8(render(p))
    } else {
        lossy(render(p))
    }
}

impl Module {
    /// The `naga` module of the code, and its info where `validate` gives the
    /// validation flags and capabilities: a parse error comes first, and without
    /// `validate` a code that parses always gives a module.
    pub fn naga_module(&self, validate: Option<(ValidationFlags, Capabilities)>) -> (r: Result<
        (naga::Module, Option<ModuleInfo>),
        String,
    >)
        ensures
            !wgsl_parses(self@.code) ==> (r matches Err(e) && e@ == wgsl_parse_message(
                self@.code,
                path_text(self@.path),
            )),
            r matches Ok((m, info)) ==> m == wgsl_module(self@.code) && (info is Some
                == validate is Some),
            r matches Ok((m, info)) ==> (validate matches Some(conf) ==> info == Some(
                wgsl_module_info(wgsl_module(self@.code), conf.0, conf.1),
            )),
            validate is None ==> (r is Ok <==> wgsl_parses(self@.code)),
            validate matches Some(conf) ==> (r is Ok <==> wgsl_parses(self@.code)
                && wgsl_validates(wgsl_module(self@.code), conf.0, conf.1)),
            validate matches Some(conf) ==> (wgsl_parses(self@.code) && !wgsl_validates(
                wgsl_module(self@.code),
                conf.0,
                conf.1,
            ) ==> (r matches Err(e) && e@ == wgsl_validation_message(
                wgsl_module(self@.code),
                conf.0,
                conf.1,
                self@.code,
                path_text(self@.path),
            ))),
    {
        let path_bytes = self.path().to_bytes();
        let path = lossy_text(path_bytes.as_slice());
        let code = self.code();
        let module = match naga_module(code, path.as_str()) {
            Ok(m) => m,
            Err(e) => {
                return Err(e);
            },
        };
        let info = match validate {
            Some(config) => match naga_validate(config, &module, code, path.as_str()) {
                Ok(i) => Some(i),
                Err(e) => {
                    return Err(e);
                },
            },
            None => None,
        };
        Ok((module, info))
    }
}

} // verus!
