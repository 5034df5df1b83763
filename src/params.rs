use vstd::prelude::*;

use bellman::groth16::{Parameters, PreparedVerifyingKey, VerifyingKey};
use pairing::bls12_381::Bls12;

verus! {

/// A set of Groth16 proving parameters over BLS12-381, as bellman holds it.
/// bellman's generic types are bound by pairing's `Engine`, which Verus cannot
/// declare, so the value is carried here unseen.
#[verifier::external_body]
pub struct ProvingParams {
    pub params: Parameters<Bls12>,
}

/// A Groth16 verifying key over BLS12-381, as bellman holds it.
#[verifier::external_body]
pub struct VerifyingKeyData {
    pub vk: VerifyingKey<Bls12>,
}

/// A Groth16 verifying key over BLS12-381 prepared for verification.
#[verifier::external_body]
pub struct PreparedKey {
    pub pvk: PreparedVerifyingKey<Bls12>,
}

#[verifier::external_type_specification]
#[verifier::external_body]
pub struct ExIoError(std::io::Error);

/// The three parameter sets that the cache holds.
#[derive(Clone, Copy, Debug, PartialEq, Eq, Structural)]
pub enum ParamRole {
    SaplingSpend,
    SaplingOutput,
    SproutGroth16,
}

/// Why loading the parameter sets failed.
#[derive(Clone, Copy, Debug, PartialEq, Eq, Structural)]
pub enum InitError {
    /// The file of this parameter set could not be opened or read.
    IoFailure(ParamRole),
    /// The bytes of this parameter set are not in the expected format.
    DeserializationFailure(ParamRole),
}

/// Whether the bytes read as a set of Groth16 proving parameters over BLS12-381.
pub uninterp spec fn parses_as_parameters(bytes: Seq<u8>) -> bool;

/// Whether the bytes read as a Groth16 verifying key over BLS12-381.
pub uninterp spec fn parses_as_verifying_key(bytes: Seq<u8>) -> bool;

/// Relies on bellman's `Parameters::read`, unchecked, over the given bytes:
/// whether it succeeds depends on the bytes alone.
#[verifier::external_body]
fn read_parameters(bytes: &[u8]) -> (r: Result<ProvingParams, std::io::Error>)
    ensures
        r is Ok <==> parses_as_parameters(bytes@),
{
    Parameters::<Bls12>::read(bytes, false).map(|params| ProvingParams { params })
}

/// Relies on bellman's `VerifyingKey::read` over the given bytes: whether it
/// succeeds depends on the bytes alone.
#[verifier::external_body]
fn read_verifying_key(bytes: &[u8]) -> (r: Result<VerifyingKeyData, std::io::Error>)
    ensures
        r is Ok <==> parses_as_verifying_key(bytes@),
{
    VerifyingKey::<Bls12>::read(bytes).map(|vk| VerifyingKeyData { vk })
}

/// Relies on bellman's `prepare_verifying_key`, which returns for every key.
#[verifier::external_body]
fn prepare(vk: &VerifyingKeyData) -> PreparedKey {
    PreparedKey { pvk: bellman::groth16::prepare_verifying_key(&vk.vk) }
}

/// Relies on bellman's `Parameters` holding its verifying key in the field
/// `vk`, and prepares that key with `prepare_verifying_key`.
#[verifier::external_body]
fn prepare_embedded(p: &ProvingParams) -> PreparedKey {
    PreparedKey { pvk: bellman::groth16::prepare_verifying_key(&p.params.vk) }
}

/// The deserialized parameter sets and their prepared verifying keys.
pub struct ZkParams {
    pub sapling_spend_params: ProvingParams,
    pub sapling_output_params: ProvingParams,
    pub sprout_groth16_params_path: String,
    pub sapling_spend_vk: PreparedKey,
    pub sapling_output_vk: PreparedKey,
    pub sprout_groth16_vk: PreparedKey,
}

/// A store of parameter sets, filled once and read afterwards.
pub struct ParameterCache {
    params: Option<ZkParams>,
}

impl ParameterCache {
    /// Whether the parameter sets have been loaded.
    pub closed spec fn initialized(&self) -> bool {
        self.params is Some
    }

    /// The location of the Sprout Groth16 parameters, once loaded.
    pub closed spec fn sprout_path(&self) -> Seq<char> {
        self.params->Some_0.sprout_groth16_params_path@
    }

    /// An empty cache.
    pub fn new() -> (r: Self)
        ensures
            !r.initialized(),
    {
        ParameterCache { params: None }
    }

    /// Whether the parameter sets have been loaded.
    pub fn is_initialized(&self) -> (r: bool)
        ensures
            r == self.initialized(),
    {
        self.params.is_some()
    }

    /// The loaded parameter sets.
    fn loaded(&self) -> (r: &ZkParams)
        requires
            self.initialized(),
        ensures
            r.sprout_groth16_params_path@ == self.sprout_path(),
    {
        self.params.as_ref().unwrap()
    }

    /// The Sapling spend proving parameters; only once loaded.
    pub fn sapling_spend_params(&self) -> (r: &ProvingParams)
        requires
            self.initialized(),
    {
        &self.loaded().sapling_spend_params
    }

    /// The Sapling output proving parameters; only once loaded.
    pub fn sapling_output_params(&self) -> (r: &ProvingParams)
        requires
            self.initialized(),
    {
        &self.loaded().sapling_output_params
    }

    /// The location of the Sprout Groth16 parameters; only once loaded.
    pub fn sprout_groth16_params_path(&self) -> (r: &String)
        requires
            self.initialized(),
        ensures
            r@ == self.sprout_path(),
    {
        &self.loaded().sprout_groth16_params_path
    }

    /// The prepared Sapling spend verifying key; only once loaded.
    pub fn sapling_spend_vk(&self) -> (r: &PreparedKey)
        requires
            self.initialized(),
    {
        &self.loaded().sapling_spend_vk
    }

    /// The prepared Sapling output verifying key; only once loaded.
    pub fn sapling_output_vk(&self) -> (r: &PreparedKey)
        requires
            self.initialized(),
    {
        &self.loaded().sapling_output_vk
    }

    /// The prepared Sprout Groth16 verifying key; only once loaded.
    pub fn sprout_groth16_vk(&self) -> (r: &PreparedKey)
        requires
            self.initialized(),
    {
        &self.loaded().sprout_groth16_vk
    }
}

/// What loading gives for the contents of the three files, `None` where a
/// file could not be read: the first unreadable file in the order spend,
/// output, Sprout; else the first set that does not deserialize, in the same
/// order; else success.
pub open spec fn init_outcome(
    spend: Option<Vec<u8>>,
    output: Option<Vec<u8>>,
    sprout: Option<Vec<u8>>,
) -> Result<(), InitError> {
    if spend is None {
        Err(InitError::IoFailure(ParamRole::SaplingSpend))
    } else if output is None {
        Err(InitError::IoFailure(ParamRole::SaplingOutput))
    } else if sprout is None {
        Err(InitError::IoFailure(ParamRole::SproutGroth16))
    } else if !parses_as_parameters(spend->Some_0@) {
        Err(InitError::DeserializationFailure(ParamRole::SaplingSpend))
    } else if !parses_as_parameters(output->Some_0@) {
        Err(InitError::DeserializationFailure(ParamRole::SaplingOutput))
    } else if !parses_as_verifying_key(sprout->Some_0@) {
        Err(InitError::DeserializationFailure(ParamRole::SproutGroth16))
    } else {
        Ok(())
    }
}

/// Loads the Sapling spend and output parameter sets and the Sprout Groth16
/// verifying key from the contents of their files, prepares the three
/// verifying keys, and stores all of it with the Sprout parameters' location.
///
/// On failure the cache stays empty.
pub fn librustzcash_init_zksnark_params(
    cache: &mut ParameterCache,
    spend: Option<Vec<u8>>,
    output: Option<Vec<u8>>,
    sprout: Option<Vec<u8>>,
    sprout_path: String,
) -> (r: Result<(), InitError>)
    requires
        !old(cache).initialized(),
    ensures
        r == init_outcome(spend, output, sprout),
        r is Ok <==> final(cache).initialized(),
        r is Ok ==> final(cache).sprout_path() == sprout_path@,
        r is Err ==> *final(cache) == *old(cache),
{
    let spend_bytes = match spend {
        Some(b) => b,
        None => {
            return Err(InitError::IoFailure(ParamRole::SaplingSpend));
        },
    };
    let output_bytes = match output {
        Some(b) => b,
        None => {
            return Err(InitError::IoFailure(ParamRole::SaplingOutput));
        },
    };
    let sprout_bytes = match sprout {
        Some(b) => b,
        None => {
            return Err(InitError::IoFailure(ParamRole::SproutGroth16));
        },
    };
    let spend_params = match read_parameters(spend_bytes.as_slice()) {
        Ok(p) => p,
        Err(_) => {
            return Err(InitError::DeserializationFailure(ParamRole::SaplingSpend));
        },
    };
    let output_params = match read_parameters(output_bytes.as_slice()) {
        Ok(p) => p,
        Err(_) => {
            return Err(InitError::DeserializationFailure(ParamRole::SaplingOutput));
        },
    };
    let sprout_vk = match read_verifying_key(sprout_bytes.as_slice()) {
        Ok(vk) => vk,
        Err(_) => {
            return Err(InitError::DeserializationFailure(ParamRole::SproutGroth16));
        },
    };
    let spend_vk = prepare_embedded(&spend_params);
    let output_vk = prepare_embedded(&output_params);
    let sprout_vk = prepare(&sprout_vk);
    cache.params = Some(
        ZkParams {
            sapling_spend_params: spend_params,
            sapling_output_params: output_params,
            sprout_groth16_params_path: sprout_path,
            sapling_spend_vk: spend_vk,
            sapling_output_vk: output_vk,
            sprout_groth16_vk: sprout_vk,
        },
    );
    Ok(())
}

} // verus!
