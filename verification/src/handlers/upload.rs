//! Checking an uploaded item image and naming the stored file.
use vstd::prelude::*;

use crate::error::AppError;
use crate::text::{
    decimal, json_string, push_decimal, push_json_string, starts_with, starts_with_spec, str_eq,
    uuid_text, uuid_text_spec,
};

verus! {

/// The largest image accepted, in bytes (5 MiB).
pub const MAX_FILE_SIZE: usize = 5242880;

/// The content type of an upload; a part without one counts as
/// "application/octet-stream".
pub open spec fn effective_content_type(content_type: Option<Seq<char>>) -> Seq<char> {
    match content_type {
        Some(c) => c,
        None => "application/octet-stream"@,
    }
}

/// Checks that an upload declares an image type, and gives its content type.
pub fn check_image_type(content_type: Option<&str>) -> (r: Result<String, AppError>)
    ensures
        ({
            let ct = effective_content_type(
                match content_type {
                    Some(c) => Some(c@),
                    None => None,
                },
            );
            if starts_with_spec(ct, "image/"@) {
                r matches Ok(s) && s@ == ct
            } else {
                r matches Err(AppError::BadRequest(m)) && m@ == "只支持图片文件"@
            }
        }),
{
    let ct = match content_type {
        Some(c) => String::from_str(c),
        None => String::from_str("application/octet-stream"),
    };
    if starts_with(ct.as_str(), "image/") {
        Ok(ct)
    } else {
        Err(AppError::BadRequest(String::from_str("只支持图片文件")))
    }
}

/// The file extension of a supported image type.
pub open spec fn image_extension_spec(content_type: Seq<char>) -> Option<Seq<char>> {
    if content_type == "image/jpeg"@ {
        Some("jpg"@)
    } else if content_type == "image/png"@ {
        Some("png"@)
    } else if content_type == "image/gif"@ {
        Some("gif"@)
    } else if content_type == "image/webp"@ {
        Some("webp"@)
    } else {
        None
    }
}

/// Checks the size and the type of an image of `size` bytes, and gives the file
/// extension for it: too large images are refused first, then unsupported types.
pub fn image_extension(content_type: &str, size: usize) -> (r: Result<&'static str, AppError>)
    ensures
        size > MAX_FILE_SIZE ==> (r matches Err(AppError::BadRequest(m)) && m@
            == "文件大小不能超过 5MB"@),
        size <= MAX_FILE_SIZE ==> match image_extension_spec(content_type@) {
            Some(ext) => r matches Ok(e) && e@ == ext,
            None => r matches Err(AppError::BadRequest(m)) && m@ == "不支持的图片格式"@,
        },
{
    if size > MAX_FILE_SIZE {
        return Err(AppError::BadRequest(String::from_str("文件大小不能超过 5MB")));
    }
    if str_eq(content_type, "image/jpeg") {
        Ok("jpg")
    } else if str_eq(content_type, "image/png") {
        Ok("png")
    } else if str_eq(content_type, "image/gif") {
        Ok("gif")
    } else if str_eq(content_type, "image/webp") {
        Ok("webp")
    } else {
        Err(AppError::BadRequest(String::from_str("不支持的图片格式")))
    }
}

/// The name of the stored file: the file's identifier, a dot and the extension.
pub open spec fn upload_file_name(file_id: u128, ext: Seq<char>) -> Seq<char> {
    uuid_text_spec(file_id) + "."@ + ext
}

/// Where an uploaded file is stored and under which URL it is served:
/// `uploads/<name>` and `/uploads/<name>`.
pub fn upload_paths(file_id: u128, ext: &str) -> (r: (String, String))
    ensures
        r.0@ == "uploads/"@ + upload_file_name(file_id, ext@),
        r.1@ == "/uploads/"@ + upload_file_name(file_id, ext@),
{
    let mut name = uuid_text(file_id);
    name.append(".");
    name.append(ext);
    let mut path = String::from_str("uploads/");
    path.append(name.as_str());
    let mut url = String::from_str("/uploads/");
    url.append(name.as_str());
    proof {
        assert(path@ =~= "uploads/"@ + upload_file_name(file_id, ext@));
        assert(url@ =~= "/uploads/"@ + upload_file_name(file_id, ext@));
    }
    (path, url)
}

/// The answer to an upload: `{"image_url": url, "size": n}`.
pub open spec fn upload_body(url: Seq<char>, size: u64) -> Seq<char> {
    "{"@ + json_string("image_url"@) + ":"@ + json_string(url) + ","@ + json_string("size"@) + ":"@
        + decimal(size as nat) + "}"@
}

/// The answer to an upload.
pub fn upload_response(url: &str, size: usize) -> (body: String)
    ensures
        body@ == upload_body(url@, size as u64),
{
    let mut body = String::from_str("{");
    push_json_string(&mut body, "image_url");
    body.append(":");
    push_json_string(&mut body, url);
    body.append(",");
    push_json_string(&mut body, "size");
    body.append(":");
    push_decimal(&mut body, size as u64);
    body.append("}");
    body
}

} // verus!
