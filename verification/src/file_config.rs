//! Configuration files of one plugin.
//!
//! A [`FileConfiguration`] decides where a plugin's configuration document
//! comes from and when an embedded default is written out. Reading and
//! writing the files themselves is the host's work; the decisions — which
//! text is the document, whether the default or a resource must be written —
//! are made here.

use vstd::prelude::*;

verus! {

/// Why a configuration document could not be produced.
#[derive(Debug)]
pub enum ConfigFileError {
    /// The file does not exist and the plugin embeds no default payload.
    MissingEmbeddedResource,
    /// The embedded payload is not valid UTF-8 text.
    InvalidUtf8,
}

/// Manages the on-disk configuration files of one plugin: the plugin's
/// name, the folder its files live in, and an optional payload embedded in
/// the plugin artifact that serves as the default document.
pub struct FileConfiguration {
    pub plugin_name: String,
    pub data_folder: String,
    pub embedded_resource: Option<Vec<u8>>,
}

/// Relies on `String::from_utf8`: it succeeds exactly on valid UTF-8 input
/// and returns the string those bytes encode.
#[verifier::external_body]
fn bytes_to_string(bytes: &Vec<u8>) -> (r: Option<String>)
    ensures
        (r is Some) <==> vstd::utf8::valid_utf8(bytes@),
        r matches Some(s) ==> s@ == vstd::utf8::decode_utf8(bytes@),
{
    String::from_utf8(bytes.clone()).ok()
}

impl FileConfiguration {
    /// Create a configuration-file manager for one plugin.
    pub fn new(
        plugin_name: String,
        data_folder: String,
        embedded_resource: Option<Vec<u8>>,
    ) -> (r: Self)
        ensures
            r.plugin_name@ == plugin_name@,
            r.data_folder@ == data_folder@,
            r.embedded_resource == embedded_resource,
    {
        FileConfiguration { plugin_name, data_folder, embedded_resource }
    }

    /// The text of the configuration document: the file's own text when the
    /// file exists, otherwise the embedded default. A missing document with
    /// no embedded default is a hard error, and an embedded default that is
    /// not UTF-8 text is rejected.
    pub fn select_content(&self, file_text: Option<String>) -> (r: Result<String, ConfigFileError>)
        ensures
            file_text matches Some(t) ==> r matches Ok(c) && c@ == t@,
            (file_text is None && self.embedded_resource is None) ==> r matches Err(
                ConfigFileError::MissingEmbeddedResource,
            ),
            file_text is None ==> (self.embedded_resource matches Some(b) ==> {
                if vstd::utf8::valid_utf8(b@) {
                    r matches Ok(c) && c@ == vstd::utf8::decode_utf8(b@)
                } else {
                    r matches Err(ConfigFileError::InvalidUtf8)
                }
            }),
    {
        match file_text {
            Some(t) => Ok(t),
            None => match &self.embedded_resource {
                Some(bytes) => match bytes_to_string(bytes) {
                    Some(s) => Ok(s),
                    None => Err(ConfigFileError::InvalidUtf8),
                },
                None => Err(ConfigFileError::MissingEmbeddedResource),
            },
        }
    }

    /// What saving the default configuration writes: nothing when the file
    /// already exists, the embedded payload when one is present, and an
    /// error when the file is missing and no payload is embedded.
    pub fn default_write_payload(&self, file_exists: bool) -> (r: Result<
        Option<Vec<u8>>,
        ConfigFileError,
    >)
        ensures
            file_exists ==> (r matches Ok(w) && w is None),
            !file_exists ==> (self.embedded_resource matches Some(b) ==> (r matches Ok(w) && (
            w matches Some(p) && p@ == b@))),
            (!file_exists && self.embedded_resource is None) ==> r matches Err(
                ConfigFileError::MissingEmbeddedResource,
            ),
    {
        if file_exists {
            return Ok(None);
        }
        match &self.embedded_resource {
            Some(bytes) => {
                let payload = bytes.clone();
                proof {
                    assert(payload@ =~= self.embedded_resource->0@);
                }
                Ok(Some(payload))
            },
            None => Err(ConfigFileError::MissingEmbeddedResource),
        }
    }

    /// What saving a resource file writes: the embedded payload when the
    /// file is missing or `replace` asks for an overwrite, nothing when the
    /// file exists and must not be replaced, and an error when no payload is
    /// embedded at all.
    pub fn resource_write_payload(&self, file_exists: bool, replace: bool) -> (r: Result<
        Option<Vec<u8>>,
        ConfigFileError,
    >)
        ensures
            self.embedded_resource is None ==> r matches Err(
                ConfigFileError::MissingEmbeddedResource,
            ),
            (replace || !file_exists) ==> (self.embedded_resource matches Some(b) ==> (r matches
            Ok(w) && (w matches Some(p) && p@ == b@))),
            (self.embedded_resource is Some && !replace && file_exists) ==> (r matches Ok(w) && w
                is None),
    {
        match &self.embedded_resource {
            Some(bytes) => {
                if replace || !file_exists {
                    let payload = bytes.clone();
                    proof {
                        assert(payload@ =~= self.embedded_resource->0@);
                    }
                    Ok(Some(payload))
                } else {
                    Ok(None)
                }
            },
            None => Err(ConfigFileError::MissingEmbeddedResource),
        }
    }
}

} // verus!
