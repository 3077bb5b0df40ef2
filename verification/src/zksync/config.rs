//! How a project is compiled.
use crate::zksync::compilers::zksolc::settings::ZkSolcSettings;
use vstd::prelude::*;

verus! {

/// The config to use when compiling the contracts
pub struct ZkSolcConfig {
    /// How the file was compiled
    pub settings: ZkSolcSettings,
}

impl Default for ZkSolcConfig {
    fn default() -> (res: Self)
        ensures
            res.settings@.remappings.len() == 0,
            res.settings@.libraries.len() == 0,
            res.settings@.evm_version is None,
            res.settings@.solc is None,
            res.settings@.other is None,
            !res.settings@.system_mode,
            !res.settings@.force_evmla,
            !res.settings@.detect_missing_libraries,
    {
        ZkSolcConfig { settings: ZkSolcSettings::default() }
    }
}

impl From<ZkSolcConfig> for ZkSolcSettings {
    fn from(config: ZkSolcConfig) -> (res: Self) {
        config.settings
    }
}

impl vstd::std_specs::convert::FromSpecImpl<ZkSolcConfig> for ZkSolcSettings {
    open spec fn obeys_from_spec() -> bool {
        true
    }

    open spec fn from_spec(config: ZkSolcConfig) -> Self {
        config.settings
    }
}

} // verus!
