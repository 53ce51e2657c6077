use vstd::prelude::*;
use naga::ir::Module as ShaderModule;

verus! {

#[verifier::external_type_specification]
#[verifier::external_body]
pub struct ExNagaModule(ShaderModule);

#[verifier::external_type_specification]
#[verifier::external_body]
pub struct ExModuleInfo(naga::valid::ModuleInfo);

#[verifier::external_type_specification]
#[verifier::external_body]
pub struct ExValidationFlags(naga::valid::ValidationFlags);

#[verifier::external_type_specification]
#[verifier::external_body]
pub struct ExCapabilities(naga::valid::Capabilities);

} // verus!
