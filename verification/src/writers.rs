pub mod docx;
pub mod html;
