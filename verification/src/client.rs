//! What a client sends: top-up transactions that it signs itself.
use vstd::prelude::*;
use crate::blockchain::{Address, AssetName, SignedTransaction, TransactionInfo, UnsignedTransaction};
use crate::crypto::{CryptoError, spec_ecdsa_signature, spec_hex_encode, spec_public_key, spec_secret_key_valid};
use crate::encoding::{encode_unsigned_transaction, fits_length};

verus! {

/// The amount that a client tops up.
pub const TOP_UP_AMOUNT: u64 = 5;

/// A top-up of five ETH to the address at the given moment, signed over
/// its encoding with the secret key, whose public key it carries; or
/// `InvalidSecretKey` where the bytes are no secret key.
pub fn create_and_sign_topup_transaction(address: Address, secret_key: &[u8], timestamp: i64) -> (result: Result<SignedTransaction, CryptoError>)
    requires
        fits_length(address@.len()),
    ensures
        result is Err <==> !spec_secret_key_valid(secret_key@),
        result is Err ==> result->Err_0 == CryptoError::InvalidSecretKey,
        result matches Ok(signed) ==> signed.transaction@ == (crate::blockchain::TransactionModel::TopUp {
            receiver: address@,
            info: TransactionInfo { amount: TOP_UP_AMOUNT, asset_name: AssetName::ETH, timestamp },
        }),
        result matches Ok(signed) ==> signed.signature@ == spec_hex_encode(spec_ecdsa_signature(secret_key@, encode_unsigned_transaction(signed.transaction@))),
        result matches Ok(signed) ==> signed.public_key@ == spec_public_key(secret_key@),
        result matches Ok(signed) ==> crate::peer::transaction_verifies(signed@),
{
    if !crate::crypto::secret_key_is_valid(secret_key) {
        return Err(CryptoError::InvalidSecretKey);
    }
    let transaction = UnsignedTransaction::TopUpTransaction {
        receiver_addr: address,
        info: TransactionInfo { amount: TOP_UP_AMOUNT, asset_name: AssetName::ETH, timestamp },
    };
    let encoded = crate::encoding::unsigned_transaction_bytes(&transaction);
    let signature = match crate::crypto::sign_ecdsa(encoded.as_slice(), secret_key) {
        Ok(signature) => signature,
        Err(_) => {
            // A valid secret key always signs.
            proof {
                assert(false);
            }
            String::new()
        },
    };
    let public_key = crate::crypto::public_key_of(secret_key);
    proof {
        crate::crypto::lemma_made_signature_verifies(encoded@, secret_key@);
    }
    Ok(SignedTransaction { transaction, signature, public_key })
}

} // verus!
