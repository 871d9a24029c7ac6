use vstd::prelude::*;

verus! {

/// Client-facing upload limits.
#[derive(Debug, Clone, Copy)]
pub struct FileUploadConfig {
    pub max_file_size_mb: u32,
    pub permitted_file_extensions: [&'static str; 1],
    pub max_upload_time_sec: u16,
}

/// Application configuration handed to the UI layer.
#[derive(Debug, Clone, Copy)]
pub struct AppConfig {
    pub file_upload: FileUploadConfig,
}

/// The fixed configuration: wav uploads only, up to 500 MB, five minutes
/// per upload.
pub fn get_app_config() -> (r: AppConfig)
    ensures
        r.file_upload.max_file_size_mb == 500,
        r.file_upload.max_upload_time_sec == 300,
        r.file_upload.permitted_file_extensions[0]@ == ".wav"@,
{
    AppConfig {
        file_upload: FileUploadConfig {
            max_file_size_mb: 500,
            permitted_file_extensions: [".wav"],
            max_upload_time_sec: 300,
        },
    }
}

} // verus!
