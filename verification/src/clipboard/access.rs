//! Reading, writing and watching the clipboard.

use vstd::prelude::*;

use crate::clipboard::types::ClipboardContent;
use crate::text::same;

verus! {

/// How often the clipboard is looked at, in milliseconds.
pub const WATCH_INTERVAL_MS: u64 = 250;

/// What the clipboard holds, from what could be read of it: text comes before an image. `max_size` is
/// the size to which an image is held.
pub fn content_from(text: Option<String>, image: Option<Vec<u8>>, max_size: u32) -> (r: Result<
    ClipboardContent,
    String,
>)
    ensures
        match (text, image) {
            (Some(t), _) => r == Ok::<ClipboardContent, String>(ClipboardContent::Text(t)),
            (None, Some(i)) => r == Ok::<ClipboardContent, String>(
                ClipboardContent::Image { data: i, max_size },
            ),
            (None, None) => r matches Err(e) && e@ == "剪贴板中无可识别的格式"@,
        },
{
    match text {
        Some(t) => Ok(ClipboardContent::Text(t)),
        None => match image {
            Some(data) => Ok(ClipboardContent::Image { data, max_size }),
            None => Err("剪贴板中无可识别的格式".to_owned()),
        },
    }
}

/// Why something is not written.
#[derive(Debug)]
pub enum WriteFault {
    /// The systems do not agree on how an image is written.
    Image,
    /// It is neither text nor an image.
    Unsupported(ClipboardContent),
}

/// What is said of an image.
pub open spec fn image_fault_text() -> Seq<char> {
    "跨平台图片同步尚未统一线格式（Windows=CF_DIB / Linux=RGBA），文本同步已可用"@
}

impl WriteFault {
    /// What is said of the failure. Behind it stands what was to be written, where it is not an image.
    pub fn message(&self) -> (r: &'static str)
        ensures
            match self {
                WriteFault::Image => r@ == image_fault_text(),
                WriteFault::Unsupported(_) => r@ == "不支持写入的剪贴板内容"@,
            },
    {
        match self {
            WriteFault::Image => "跨平台图片同步尚未统一线格式（Windows=CF_DIB / Linux=RGBA），文本同步已可用",
            WriteFault::Unsupported(_) => "不支持写入的剪贴板内容",
        }
    }
}

/// The text that is written into the clipboard. Only text is.
pub fn text_to_write(content: ClipboardContent) -> (r: Result<String, WriteFault>)
    ensures
        match content {
            ClipboardContent::Text(t) => r == Ok::<String, WriteFault>(t),
            ClipboardContent::Image { .. } => r == Err::<String, WriteFault>(WriteFault::Image),
            _ => r == Err::<String, WriteFault>(WriteFault::Unsupported(content)),
        },
{
    match content {
        ClipboardContent::Text(t) => Ok(t),
        ClipboardContent::Image { data: _, max_size: _ } => Err(WriteFault::Image),
        other => Err(WriteFault::Unsupported(other)),
    }
}

/// The text of the clipboard, for who asks for nothing else.
pub fn text_of(content: ClipboardContent) -> (r: Result<String, String>)
    ensures
        match content {
            ClipboardContent::Text(t) => r == Ok::<String, String>(t),
            _ => r matches Err(e) && e@ == "clipboard does not contain text"@,
        },
{
    match content {
        ClipboardContent::Text(t) => Ok(t),
        _ => Err("clipboard does not contain text".to_owned()),
    }
}

/// Watches the clipboard by its text. What it held at first is no change.
pub struct TextWatch {
    pub last: String,
}

impl TextWatch {
    /// A watch that begins with what the clipboard holds; nothing where that is no text.
    pub fn new(first: Option<String>) -> (r: Self)
        ensures
            r.last@ == match first {
                Some(t) => t@,
                None => ""@,
            },
    {
        match first {
            Some(t) => TextWatch { last: t },
            None => TextWatch { last: "".to_owned() },
        }
    }

    /// Whether the clipboard has changed. Where it holds no text, nothing is said.
    pub fn changed(&mut self, now: Option<String>) -> (r: bool)
        ensures
            match now {
                Some(t) => r == (t@ != old(self).last@) && final(self).last@ == t@,
                None => !r && final(self).last == old(self).last,
            },
    {
        match now {
            Some(t) => {
                if same(t.as_str(), self.last.as_str()) {
                    false
                } else {
                    self.last = t;
                    true
                }
            },
            None => false,
        }
    }
}

/// Watches the clipboard by the number of its changes, where the system counts them.
pub struct CountWatch {
    pub last: i64,
}

impl CountWatch {
    /// A watch that begins with a number of changes.
    pub fn new(first: i64) -> (r: Self)
        ensures
            r.last == first,
    {
        CountWatch { last: first }
    }

    /// Whether the clipboard has changed.
    pub fn changed(&mut self, now: i64) -> (r: bool)
        ensures
            r == (now != old(self).last),
            final(self).last == now,
    {
        let r = now != self.last;
        self.last = now;
        r
    }
}

} // verus!
