//! The usage text that the help command answers with.
use vstd::prelude::*;

use crate::text::string_from;

verus! {

/// The usage text.
pub open spec fn help_text() -> Seq<char> {
    "固车拾取 使用方法\n━━━━━━━━━━━━━━━━\n\n/开启固车拾取 - 启用本群自动拾取车牌（管理员）\n/关闭固车拾取 - 关闭本群（管理员）\n/固车模式 - 查看或设置车牌位置（前缀/后缀）与匹配方式（严格/宽松）（管理员）\n/固车拾取 使用方法 - 显示本说明\n\n在已启用的群里发送5位房号，机器人会把车牌写进群名（超过60字时截断原群名）。"@
}

/// The usage text, as a new string.
pub fn generate() -> (r: String)
    ensures
        r@ == help_text(),
{
    string_from(
        "固车拾取 使用方法\n━━━━━━━━━━━━━━━━\n\n/开启固车拾取 - 启用本群自动拾取车牌（管理员）\n/关闭固车拾取 - 关闭本群（管理员）\n/固车模式 - 查看或设置车牌位置（前缀/后缀）与匹配方式（严格/宽松）（管理员）\n/固车拾取 使用方法 - 显示本说明\n\n在已启用的群里发送5位房号，机器人会把车牌写进群名（超过60字时截断原群名）。",
    )
}

} // verus!
