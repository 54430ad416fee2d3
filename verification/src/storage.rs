use vstd::prelude::*;

use crate::config::{opt_view, Config};

verus! {

/// Where asset bytes are kept.
pub enum StorageChoice {
    /// In an S3-compatible bucket.
    S3 {
        bucket: String,
        region: String,
        /// Static credentials, when both parts are configured.
        credentials: Option<(String, String)>,
        endpoint_url: Option<String>,
    },
    /// In a local directory.
    Local { root: String },
}

/// Assets go to the configured bucket when there is one, with static
/// credentials when both the key id and secret are set; otherwise to the
/// local asset directory.
pub fn storage_choice(config: &Config) -> (r: StorageChoice)
    ensures
        match opt_view(config.asset_bucket) {
            Some(b) => r matches StorageChoice::S3 { bucket, region, credentials, endpoint_url } && {
                &&& bucket@ == b
                &&& region@ == config.aws_region@
                &&& opt_view(endpoint_url) == opt_view(config.aws_endpoint_url_s3)
                &&& match (opt_view(config.aws_access_key_id), opt_view(config.aws_secret_access_key)) {
                    (Some(k), Some(s)) => credentials matches Some((kk, ss)) && kk@ == k && ss@ == s,
                    _ => credentials is None,
                }
            },
            None => r matches StorageChoice::Local { root } && root@ == config.local_asset_dir@,
        },
{
    match &config.asset_bucket {
        Some(bucket) => {
            let credentials = match (&config.aws_access_key_id, &config.aws_secret_access_key) {
                (Some(k), Some(s)) => Some((k.clone(), s.clone())),
                _ => None,
            };
            let endpoint_url = match &config.aws_endpoint_url_s3 {
                Some(e) => Some(e.clone()),
                None => None,
            };
            StorageChoice::S3 {
                bucket: bucket.clone(),
                region: config.aws_region.clone(),
                credentials,
                endpoint_url,
            }
        },
        None => StorageChoice::Local { root: config.local_asset_dir.clone() },
    }
}

} // verus!
