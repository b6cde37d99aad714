//! The Simplified Chinese of the interface's texts, by their English.

use vstd::prelude::*;

use crate::text::{opt_str, spells};

verus! {

/// Texts that start with a sign or a digit.
pub open spec fn zh_signs(en: Seq<char>) -> Option<Seq<char>> {
    if en == "%b %-d, %-I:%M %p"@ {
        Some("%-m月%-d日 %H:%M"@)
    } else if en == "(no subject)"@ {
        Some("（无主题）"@)
    } else if en == "0 Uncommitted changes"@ {
        Some("0 个未提交的更改"@)
    } else if en == "1 Changed file vs main"@ {
        Some("1 个文件发生更改，对比 main"@)
    } else if en == "1 imported"@ {
        Some("已导入 1 个"@)
    } else if en == "1 Uncommitted change"@ {
        Some("1 个未提交的更改"@)
    } else if en == "1/2 done"@ {
        Some("1/2 已完成"@)
    } else if en == "2 attached images"@ {
        Some("2 张已附加图片"@)
    } else if en == "2 Changed files this turn"@ {
        Some("本轮 2 个文件发生更改"@)
    } else if en == "2 Uncommitted changes"@ {
        Some("2 个未提交的更改"@)
    } else if en == "2d ago"@ {
        Some("2 天前"@)
    } else if en == "3 Changed files"@ {
        Some("3 个文件发生更改"@)
    } else if en == "3 failures"@ {
        Some("3 个失败"@)
    } else if en == "3h ago"@ {
        Some("3 小时前"@)
    } else if en == "4 Uncommitted changes"@ {
        Some("4 个未提交的更改"@)
    } else if en == "5-hour"@ {
        Some("5 小时"@)
    } else if en == "5m ago"@ {
        Some("5 分钟前"@)
    } else if en == "{bucket_len} prompts"@ {
        Some("{bucket_len} 个提示词"@)
    } else if en == "{cli} CLI not installed — turn it off or install it"@ {
        Some("{cli} CLI 未安装——请关闭或安装"@)
    } else if en == "{combo} is already assigned to {owner}."@ {
        Some("{combo} 已分配给 {owner}。"@)
    } else if en == "{count} imported, 1 failure: {first}"@ {
        Some("已导入 {count} 个，1 个失败：{first}"@)
    } else if en == "{count} imported, {errors} failures — first: {first}"@ {
        Some("已导入 {count} 个，{errors} 个失败——首个：{first}"@)
    } else if en == "{count} Uncommitted changes"@ {
        Some("{count} 个未提交的更改"@)
    } else if en == "{display_name} could not be read."@ {
        Some("{display_name} 无法读取。"@)
    } else if en == "{display_name} is not a supported image."@ {
        Some("{display_name} 不是受支持的图片格式。"@)
    } else if en == "{display_name} is too large (24 MB max)."@ {
        Some("{display_name} 过大（最大 24 MB）。"@)
    } else if en == "{n} attached images"@ {
        Some("{n} 张已附加图片"@)
    } else if en == "{n}d ago"@ {
        Some("{n} 天前"@)
    } else if en == "{n}h ago"@ {
        Some("{n} 小时前"@)
    } else if en == "{n}m ago"@ {
        Some("{n} 分钟前"@)
    } else if en == "{pct}% used"@ {
        Some("已用 {pct}%"@)
    } else if en == "{} model discovery did not complete within {}s"@ {
        Some("{} 模型发现未在 {} 秒内完成"@)
    } else {
        None
    }
}

fn find_signs(en: &[char]) -> (r: Option<&'static str>)
    ensures
        opt_str(r) == zh_signs(en@),
{
    if spells(en, "%b %-d, %-I:%M %p") {
        return Some("%-m月%-d日 %H:%M");
    }
    if spells(en, "(no subject)") {
        return Some("（无主题）");
    }
    if spells(en, "0 Uncommitted changes") {
        return Some("0 个未提交的更改");
    }
    if spells(en, "1 Changed file vs main") {
        return Some("1 个文件发生更改，对比 main");
    }
    if spells(en, "1 imported") {
        return Some("已导入 1 个");
    }
    if spells(en, "1 Uncommitted change") {
        return Some("1 个未提交的更改");
    }
    if spells(en, "1/2 done") {
        return Some("1/2 已完成");
    }
    if spells(en, "2 attached images") {
        return Some("2 张已附加图片");
    }
    if spells(en, "2 Changed files this turn") {
        return Some("本轮 2 个文件发生更改");
    }
    if spells(en, "2 Uncommitted changes") {
        return Some("2 个未提交的更改");
    }
    if spells(en, "2d ago") {
        return Some("2 天前");
    }
    if spells(en, "3 Changed files") {
        return Some("3 个文件发生更改");
    }
    if spells(en, "3 failures") {
        return Some("3 个失败");
    }
    if spells(en, "3h ago") {
        return Some("3 小时前");
    }
    if spells(en, "4 Uncommitted changes") {
        return Some("4 个未提交的更改");
    }
    if spells(en, "5-hour") {
        return Some("5 小时");
    }
    if spells(en, "5m ago") {
        return Some("5 分钟前");
    }
    if spells(en, "{bucket_len} prompts") {
        return Some("{bucket_len} 个提示词");
    }
    if spells(en, "{cli} CLI not installed — turn it off or install it") {
        return Some("{cli} CLI 未安装——请关闭或安装");
    }
    if spells(en, "{combo} is already assigned to {owner}.") {
        return Some("{combo} 已分配给 {owner}。");
    }
    if spells(en, "{count} imported, 1 failure: {first}") {
        return Some("已导入 {count} 个，1 个失败：{first}");
    }
    if spells(en, "{count} imported, {errors} failures — first: {first}") {
        return Some("已导入 {count} 个，{errors} 个失败——首个：{first}");
    }
    if spells(en, "{count} Uncommitted changes") {
        return Some("{count} 个未提交的更改");
    }
    if spells(en, "{display_name} could not be read.") {
        return Some("{display_name} 无法读取。");
    }
    if spells(en, "{display_name} is not a supported image.") {
        return Some("{display_name} 不是受支持的图片格式。");
    }
    if spells(en, "{display_name} is too large (24 MB max).") {
        return Some("{display_name} 过大（最大 24 MB）。");
    }
    if spells(en, "{n} attached images") {
        return Some("{n} 张已附加图片");
    }
    if spells(en, "{n}d ago") {
        return Some("{n} 天前");
    }
    if spells(en, "{n}h ago") {
        return Some("{n} 小时前");
    }
    if spells(en, "{n}m ago") {
        return Some("{n} 分钟前");
    }
    if spells(en, "{pct}% used") {
        return Some("已用 {pct}%");
    }
    if spells(en, "{} model discovery did not complete within {}s") {
        return Some("{} 模型发现未在 {} 秒内完成");
    }
    None
}

/// Texts that start with A and B.
pub open spec fn zh_a_b(en: Seq<char>) -> Option<Seq<char>> {
    if en == "A project is a folder on one of your devices."@ {
        Some("项目是你某台设备上的一个文件夹。"@)
    } else if en == "About Zeron"@ {
        Some("关于 Zeron"@)
    } else if en == "Accounts"@ {
        Some("账号"@)
    } else if en == "Active"@ {
        Some("当前"@)
    } else if en == "Add a project"@ {
        Some("添加项目"@)
    } else if en == "Add a project to get started"@ {
        Some("添加项目以开始"@)
    } else if en == "Add account"@ {
        Some("添加账号"@)
    } else if en == "Add Codex account"@ {
        Some("添加 Codex 账号"@)
    } else if en == "Added {when}"@ {
        Some("添加于 {when}"@)
    } else if en == "Adding…"@ {
        Some("正在添加…"@)
    } else if en == "Agent"@ {
        Some("智能体"@)
    } else if en == "agent does not advertise requested model {requested}; available models: {}"@ {
        Some("智能体没有提供所请求的模型 {requested}；可用：{}"@)
    } else if en == "agent rejected model switch to {model}: {error}"@ {
        Some("智能体拒绝切换到模型 {model}：{error}"@)
    } else if en == "Agents"@ {
        Some("智能体"@)
    } else if en == "All projects"@ {
        Some("全部项目"@)
    } else if en == "Anything already imported is kept; retrying only copies what's missing."@ {
        Some("已导入的内容会保留；重试只会补齐缺失的部分。"@)
    } else if en == "Appearance"@ {
        Some("外观"@)
    } else if en == "Appearance: Dark"@ {
        Some("外观：深色"@)
    } else if en == "Appearance: Light"@ {
        Some("外观：浅色"@)
    } else if en == "Appearance: System"@ {
        Some("外观：跟随系统"@)
    } else if en == "Archive"@ {
        Some("归档"@)
    } else if en == "Archived"@ {
        Some("已归档"@)
    } else if en == "Archived ({total})"@ {
        Some("已归档（{total}）"@)
    } else if en == "Archived sessions"@ {
        Some("已归档会话"@)
    } else if en == "Attached image"@ {
        Some("已附加图片"@)
    } else if en == "Authentication disabled"@ {
        Some("已禁用认证"@)
    } else if en == "Author"@ {
        Some("作者"@)
    } else if en == "Awaiting your answer…"@ {
        Some("等待你的回答…"@)
    } else if en == "Back"@ {
        Some("返回"@)
    } else if en == "Binary"@ {
        Some("二进制"@)
    } else if en == "Binary file — contents not shown"@ {
        Some("二进制文件——内容不显示"@)
    } else if en == "Branch"@ {
        Some("分支"@)
    } else if en == "Branch changes"@ {
        Some("分支更改"@)
    } else if en == "Branch: main"@ {
        Some("分支：main"@)
    } else if en == "Bring my work"@ {
        Some("迁移我的数据"@)
    } else if en == "Bring {phrase} from this device into your synced workspace, or start it fresh."@ {
        Some("将此设备上的 {phrase} 带入同步工作区，或全新开始。"@)
    } else if en == "Bringing your work over"@ {
        Some("正在迁移你的数据"@)
    } else {
        None
    }
}

fn find_a_b(en: &[char]) -> (r: Option<&'static str>)
    ensures
        opt_str(r) == zh_a_b(en@),
{
    if spells(en, "A project is a folder on one of your devices.") {
        return Some("项目是你某台设备上的一个文件夹。");
    }
    if spells(en, "About Zeron") {
        return Some("关于 Zeron");
    }
    if spells(en, "Accounts") {
        return Some("账号");
    }
    if spells(en, "Active") {
        return Some("当前");
    }
    if spells(en, "Add a project") {
        return Some("添加项目");
    }
    if spells(en, "Add a project to get started") {
        return Some("添加项目以开始");
    }
    if spells(en, "Add account") {
        return Some("添加账号");
    }
    if spells(en, "Add Codex account") {
        return Some("添加 Codex 账号");
    }
    if spells(en, "Added {when}") {
        return Some("添加于 {when}");
    }
    if spells(en, "Adding…") {
        return Some("正在添加…");
    }
    if spells(en, "Agent") {
        return Some("智能体");
    }
    if spells(en, "agent does not advertise requested model {requested}; available models: {}") {
        return Some("智能体没有提供所请求的模型 {requested}；可用：{}");
    }
    if spells(en, "agent rejected model switch to {model}: {error}") {
        return Some("智能体拒绝切换到模型 {model}：{error}");
    }
    if spells(en, "Agents") {
        return Some("智能体");
    }
    if spells(en, "All projects") {
        return Some("全部项目");
    }
    if spells(en, "Anything already imported is kept; retrying only copies what's missing.") {
        return Some("已导入的内容会保留；重试只会补齐缺失的部分。");
    }
    if spells(en, "Appearance") {
        return Some("外观");
    }
    if spells(en, "Appearance: Dark") {
        return Some("外观：深色");
    }
    if spells(en, "Appearance: Light") {
        return Some("外观：浅色");
    }
    if spells(en, "Appearance: System") {
        return Some("外观：跟随系统");
    }
    if spells(en, "Archive") {
        return Some("归档");
    }
    if spells(en, "Archived") {
        return Some("已归档");
    }
    if spells(en, "Archived ({total})") {
        return Some("已归档（{total}）");
    }
    if spells(en, "Archived sessions") {
        return Some("已归档会话");
    }
    if spells(en, "Attached image") {
        return Some("已附加图片");
    }
    if spells(en, "Authentication disabled") {
        return Some("已禁用认证");
    }
    if spells(en, "Author") {
        return Some("作者");
    }
    if spells(en, "Awaiting your answer…") {
        return Some("等待你的回答…");
    }
    if spells(en, "Back") {
        return Some("返回");
    }
    if spells(en, "Binary") {
        return Some("二进制");
    }
    if spells(en, "Binary file — contents not shown") {
        return Some("二进制文件——内容不显示");
    }
    if spells(en, "Branch") {
        return Some("分支");
    }
    if spells(en, "Branch changes") {
        return Some("分支更改");
    }
    if spells(en, "Branch: main") {
        return Some("分支：main");
    }
    if spells(en, "Bring my work") {
        return Some("迁移我的数据");
    }
    if spells(en, "Bring {phrase} from this device into your synced workspace, or start it fresh.") {
        return Some("将此设备上的 {phrase} 带入同步工作区，或全新开始。");
    }
    if spells(en, "Bringing your work over") {
        return Some("正在迁移你的数据");
    }
    None
}

/// Texts that start with C.
pub open spec fn zh_c(en: Seq<char>) -> Option<Seq<char>> {
    if en == "Cancel"@ {
        Some("取消"@)
    } else if en == "Cancel sync setup"@ {
        Some("取消同步设置"@)
    } else if en == "Canceling sync setup…"@ {
        Some("正在取消同步设置…"@)
    } else if en == "Chime when a run finishes or an agent asks a question."@ {
        Some("运行完成或智能体提问时发出提示音。"@)
    } else if en == "Choose what to show in the right panel."@ {
        Some("选择右侧面板显示的内容。"@)
    } else if en == "Click to retry"@ {
        Some("点击重试"@)
    } else if en == "Close"@ {
        Some("关闭"@)
    } else if en == "Close Window"@ {
        Some("关闭窗口"@)
    } else if en == "Closed"@ {
        Some("已关闭"@)
    } else if en == "Commit"@ {
        Some("提交"@)
    } else if en == "Complete"@ {
        Some("完成"@)
    } else if en == "Connect Cursor"@ {
        Some("连接 Cursor"@)
    } else if en == "Context Window"@ {
        Some("上下文窗口"@)
    } else if en == "Context window"@ {
        Some("上下文窗口"@)
    } else if en == "Continue"@ {
        Some("继续"@)
    } else if en == "Copied"@ {
        Some("已复制"@)
    } else if en == "Copy"@ {
        Some("复制"@)
    } else if en == "Could not cancel sign-in: {err}"@ {
        Some("无法取消登录：{err}"@)
    } else if en == "Could not reach the zeron engine on port 27901"@ {
        Some("无法连接 27901 端口的 zeron 引擎"@)
    } else if en == "Could not stop the remote engine: {err}. Run `zeron daemon stop`, then quit and reopen Zeron."@ {
        Some("无法停止远程引擎：{err}。请运行 `zeron daemon stop`，然后退出并重新打开 Zeron。"@)
    } else if en == "Couldn't load full {what} — tap to retry"@ {
        Some("无法加载完整{what}——点击重试"@)
    } else if en == "Couldn't load this agent's commands"@ {
        Some("无法加载此智能体的命令"@)
    } else if en == "Couldn't stage the attachment locally."@ {
        Some("无法在本地暂存附件。"@)
    } else if en == "Couldn't upload the attachment — the device may be offline."@ {
        Some("附件上传失败，会话所在设备可能已离线。"@)
    } else if en == "Create"@ {
        Some("创建"@)
    } else if en == "Create your workspace"@ {
        Some("创建你的工作区"@)
    } else if en == "Creating…"@ {
        Some("正在创建…"@)
    } else if en == "Credentials unavailable"@ {
        Some("凭据暂不可用"@)
    } else if en == "Current checkout"@ {
        Some("当前检出"@)
    } else if en == "Current worktree"@ {
        Some("当前工作树"@)
    } else if en == "currently dark"@ {
        Some("当前为深色"@)
    } else if en == "currently light"@ {
        Some("当前为浅色"@)
    } else if en == "Cursor's coding agent, driven through the cursor-agent CLI."@ {
        Some("Cursor 的编程智能体，通过 cursor-agent CLI 驱动。"@)
    } else if en == "Cut"@ {
        Some("剪切"@)
    } else {
        None
    }
}

fn find_c(en: &[char]) -> (r: Option<&'static str>)
    ensures
        opt_str(r) == zh_c(en@),
{
    if spells(en, "Cancel") {
        return Some("取消");
    }
    if spells(en, "Cancel sync setup") {
        return Some("取消同步设置");
    }
    if spells(en, "Canceling sync setup…") {
        return Some("正在取消同步设置…");
    }
    if spells(en, "Chime when a run finishes or an agent asks a question.") {
        return Some("运行完成或智能体提问时发出提示音。");
    }
    if spells(en, "Choose what to show in the right panel.") {
        return Some("选择右侧面板显示的内容。");
    }
    if spells(en, "Click to retry") {
        return Some("点击重试");
    }
    if spells(en, "Close") {
        return Some("关闭");
    }
    if spells(en, "Close Window") {
        return Some("关闭窗口");
    }
    if spells(en, "Closed") {
        return Some("已关闭");
    }
    if spells(en, "Commit") {
        return Some("提交");
    }
    if spells(en, "Complete") {
        return Some("完成");
    }
    if spells(en, "Connect Cursor") {
        return Some("连接 Cursor");
    }
    if spells(en, "Context Window") {
        return Some("上下文窗口");
    }
    if spells(en, "Context window") {
        return Some("上下文窗口");
    }
    if spells(en, "Continue") {
        return Some("继续");
    }
    if spells(en, "Copied") {
        return Some("已复制");
    }
    if spells(en, "Copy") {
        return Some("复制");
    }
    if spells(en, "Could not cancel sign-in: {err}") {
        return Some("无法取消登录：{err}");
    }
    if spells(en, "Could not reach the zeron engine on port 27901") {
        return Some("无法连接 27901 端口的 zeron 引擎");
    }
    if spells(en, "Could not stop the remote engine: {err}. Run `zeron daemon stop`, then quit and reopen Zeron.") {
        return Some("无法停止远程引擎：{err}。请运行 `zeron daemon stop`，然后退出并重新打开 Zeron。");
    }
    if spells(en, "Couldn't load full {what} — tap to retry") {
        return Some("无法加载完整{what}——点击重试");
    }
    if spells(en, "Couldn't load this agent's commands") {
        return Some("无法加载此智能体的命令");
    }
    if spells(en, "Couldn't stage the attachment locally.") {
        return Some("无法在本地暂存附件。");
    }
    if spells(en, "Couldn't upload the attachment — the device may be offline.") {
        return Some("附件上传失败，会话所在设备可能已离线。");
    }
    if spells(en, "Create") {
        return Some("创建");
    }
    if spells(en, "Create your workspace") {
        return Some("创建你的工作区");
    }
    if spells(en, "Creating…") {
        return Some("正在创建…");
    }
    if spells(en, "Credentials unavailable") {
        return Some("凭据暂不可用");
    }
    if spells(en, "Current checkout") {
        return Some("当前检出");
    }
    if spells(en, "Current worktree") {
        return Some("当前工作树");
    }
    if spells(en, "currently dark") {
        return Some("当前为深色");
    }
    if spells(en, "currently light") {
        return Some("当前为浅色");
    }
    if spells(en, "Cursor's coding agent, driven through the cursor-agent CLI.") {
        return Some("Cursor 的编程智能体，通过 cursor-agent CLI 驱动。");
    }
    if spells(en, "Cut") {
        return Some("剪切");
    }
    None
}

/// Texts that start with D and E.
pub open spec fn zh_d_e(en: Seq<char>) -> Option<Seq<char>> {
    if en == "Dark"@ {
        Some("深色"@)
    } else if en == "dark"@ {
        Some("深色"@)
    } else if en == "Date"@ {
        Some("日期"@)
    } else if en == "Default"@ {
        Some("默认"@)
    } else if en == "Default (recommended)"@ {
        Some("默认（推荐）"@)
    } else if en == "Delete"@ {
        Some("删除"@)
    } else if en == "Deleted file"@ {
        Some("已删除文件"@)
    } else if en == "Delete…"@ {
        Some("删除…"@)
    } else if en == "Desktop notifications"@ {
        Some("桌面通知"@)
    } else if en == "Development"@ {
        Some("开发模式"@)
    } else if en == "Device name"@ {
        Some("设备名称"@)
    } else if en == "Devices"@ {
        Some("设备"@)
    } else if en == "did not finish stopping"@ {
        Some("守护进程未在"@)
    } else if en == "did not respond"@ {
        Some("完全没有响应"@)
    } else if en == "diff"@ {
        Some("差异"@)
    } else if en == "Diff stream interrupted — retrying"@ {
        Some("差异流中断——正在重试"@)
    } else if en == "Diff truncated — showing first {max_lines} of {total} lines"@ {
        Some("差异已截断——显示前 {max_lines} / {total} 行"@)
    } else if en == "Do anything…"@ {
        Some("随便做点什么…"@)
    } else if en == "Done"@ {
        Some("完成"@)
    } else if en == "Drop images to attach"@ {
        Some("拖入图片以附加"@)
    } else if en == "Edit"@ {
        Some("编辑"@)
    } else if en == "Edited 1 file"@ {
        Some("修改了 1 个文件"@)
    } else if en == "Empty commit"@ {
        Some("空提交"@)
    } else if en == "Enable sync"@ {
        Some("启用同步"@)
    } else if en == "Engine not connected"@ {
        Some("引擎未连接"@)
    } else if en == "English"@ {
        Some("English"@)
    } else if en == "Enter"@ {
        Some("回车"@)
    } else if en == "Enter a workspace name"@ {
        Some("请输入工作区名称"@)
    } else if en == "Error"@ {
        Some("错误"@)
    } else {
        None
    }
}

fn find_d_e(en: &[char]) -> (r: Option<&'static str>)
    ensures
        opt_str(r) == zh_d_e(en@),
{
    if spells(en, "Dark") {
        return Some("深色");
    }
    if spells(en, "dark") {
        return Some("深色");
    }
    if spells(en, "Date") {
        return Some("日期");
    }
    if spells(en, "Default") {
        return Some("默认");
    }
    if spells(en, "Default (recommended)") {
        return Some("默认（推荐）");
    }
    if spells(en, "Delete") {
        return Some("删除");
    }
    if spells(en, "Deleted file") {
        return Some("已删除文件");
    }
    if spells(en, "Delete…") {
        return Some("删除…");
    }
    if spells(en, "Desktop notifications") {
        return Some("桌面通知");
    }
    if spells(en, "Development") {
        return Some("开发模式");
    }
    if spells(en, "Device name") {
        return Some("设备名称");
    }
    if spells(en, "Devices") {
        return Some("设备");
    }
    if spells(en, "did not finish stopping") {
        return Some("守护进程未在");
    }
    if spells(en, "did not respond") {
        return Some("完全没有响应");
    }
    if spells(en, "diff") {
        return Some("差异");
    }
    if spells(en, "Diff stream interrupted — retrying") {
        return Some("差异流中断——正在重试");
    }
    if spells(en, "Diff truncated — showing first {max_lines} of {total} lines") {
        return Some("差异已截断——显示前 {max_lines} / {total} 行");
    }
    if spells(en, "Do anything…") {
        return Some("随便做点什么…");
    }
    if spells(en, "Done") {
        return Some("完成");
    }
    if spells(en, "Drop images to attach") {
        return Some("拖入图片以附加");
    }
    if spells(en, "Edit") {
        return Some("编辑");
    }
    if spells(en, "Edited 1 file") {
        return Some("修改了 1 个文件");
    }
    if spells(en, "Empty commit") {
        return Some("空提交");
    }
    if spells(en, "Enable sync") {
        return Some("启用同步");
    }
    if spells(en, "Engine not connected") {
        return Some("引擎未连接");
    }
    if spells(en, "English") {
        return Some("English");
    }
    if spells(en, "Enter") {
        return Some("回车");
    }
    if spells(en, "Enter a workspace name") {
        return Some("请输入工作区名称");
    }
    if spells(en, "Error") {
        return Some("错误");
    }
    None
}

/// Texts that start with F to K.
pub open spec fn zh_f_k(en: Seq<char>) -> Option<Seq<char>> {
    if en == "Failed"@ {
        Some("失败"@)
    } else if en == "Fast"@ {
        Some("快速"@)
    } else if en == "Fast Mode"@ {
        Some("快速模式"@)
    } else if en == "Fetch"@ {
        Some("抓取"@)
    } else if en == "Fetch all"@ {
        Some("拉取全部"@)
    } else if en == "Fetch failed: {error}"@ {
        Some("拉取失败：{error}"@)
    } else if en == "Fetching…"@ {
        Some("正在拉取…"@)
    } else if en == "File search failed"@ {
        Some("文件搜索失败"@)
    } else if en == "Finish signing in in your browser. Zeron will keep using this local workspace until you quit and reopen."@ {
        Some("请在浏览器中完成登录。在退出并重新打开 Zeron 之前，会继续使用此本地工作区。"@)
    } else if en == "Finish sync setup"@ {
        Some("完成同步设置"@)
    } else if en == "first 6 of 8 lines"@ {
        Some("显示前 6 / 8 行"@)
    } else if en == "Flagship"@ {
        Some("旗舰"@)
    } else if en == "Follow the language of this device. Currently {lang}."@ {
        Some("跟随本机语言——当前为{lang}。"@)
    } else if en == "Follow the language of your operating system."@ {
        Some("跟随操作系统的语言。"@)
    } else if en == "following"@ {
        Some("跟随"@)
    } else if en == "foo in src"@ {
        Some("foo 于 src"@)
    } else if en == "From {name}"@ {
        Some("来自 {name}"@)
    } else if en == "Glob"@ {
        Some("匹配"@)
    } else if en == "Handing the engine over to your account."@ {
        Some("正在将引擎移交给你的账号。"@)
    } else if en == "Handing the engine over to your account. Your local sessions come along next."@ {
        Some("正在将引擎移交给你的账户，本地会话随后会一并迁移。"@)
    } else if en == "harness protocol error: {0}"@ {
        Some("智能体协议错误：{0}"@)
    } else if en == "Hidden from the sidebar, never deleted. Unarchiving puts a session back on its device."@ {
        Some("从侧边栏隐藏，不会删除。取消归档会让会话回到其所在设备。"@)
    } else if en == "Hide Others"@ {
        Some("隐藏其他"@)
    } else if en == "Hide Zeron"@ {
        Some("隐藏 Zeron"@)
    } else if en == "High"@ {
        Some("高"@)
    } else if en == "High · 1M · Fast"@ {
        Some("高 · 1M · 快速"@)
    } else if en == "History"@ {
        Some("历史"@)
    } else if en == "How zeron picks between light and dark. This setting stays on this device."@ {
        Some("Zeron 如何在浅色和深色之间选择。此设置仅保存在本设备上。"@)
    } else if en == "Import didn't finish"@ {
        Some("导入未完成"@)
    } else if en == "Importing session {n} of {total}"@ {
        Some("正在导入会话 {n} / {total}"@)
    } else if en == "Input"@ {
        Some("待输入"@)
    } else if en == "Install the {cli} CLI to enable"@ {
        Some("安装 {cli} CLI 后才能启用"@)
    } else if en == "items"@ {
        Some("模型发现超时"@)
    } else if en == "its device"@ {
        Some("其设备"@)
    } else if en == "Jul 1, 3:45 PM"@ {
        Some("7月1日 15:45"@)
    } else if en == "just now"@ {
        Some("刚刚"@)
    } else if en == "Key expired"@ {
        Some("密钥已过期"@)
    } else if en == "Key expires"@ {
        Some("密钥"@)
    } else if en == "Keyboard shortcuts"@ {
        Some("键盘快捷键"@)
    } else {
        None
    }
}

fn find_f_k(en: &[char]) -> (r: Option<&'static str>)
    ensures
        opt_str(r) == zh_f_k(en@),
{
    if spells(en, "Failed") {
        return Some("失败");
    }
    if spells(en, "Fast") {
        return Some("快速");
    }
    if spells(en, "Fast Mode") {
        return Some("快速模式");
    }
    if spells(en, "Fetch") {
        return Some("抓取");
    }
    if spells(en, "Fetch all") {
        return Some("拉取全部");
    }
    if spells(en, "Fetch failed: {error}") {
        return Some("拉取失败：{error}");
    }
    if spells(en, "Fetching…") {
        return Some("正在拉取…");
    }
    if spells(en, "File search failed") {
        return Some("文件搜索失败");
    }
    if spells(en, "Finish signing in in your browser. Zeron will keep using this local workspace until you quit and reopen.") {
        return Some("请在浏览器中完成登录。在退出并重新打开 Zeron 之前，会继续使用此本地工作区。");
    }
    if spells(en, "Finish sync setup") {
        return Some("完成同步设置");
    }
    if spells(en, "first 6 of 8 lines") {
        return Some("显示前 6 / 8 行");
    }
    if spells(en, "Flagship") {
        return Some("旗舰");
    }
    if spells(en, "Follow the language of this device. Currently {lang}.") {
        return Some("跟随本机语言——当前为{lang}。");
    }
    if spells(en, "Follow the language of your operating system.") {
        return Some("跟随操作系统的语言。");
    }
    if spells(en, "following") {
        return Some("跟随");
    }
    if spells(en, "foo in src") {
        return Some("foo 于 src");
    }
    if spells(en, "From {name}") {
        return Some("来自 {name}");
    }
    if spells(en, "Glob") {
        return Some("匹配");
    }
    if spells(en, "Handing the engine over to your account.") {
        return Some("正在将引擎移交给你的账号。");
    }
    if spells(en, "Handing the engine over to your account. Your local sessions come along next.") {
        return Some("正在将引擎移交给你的账户，本地会话随后会一并迁移。");
    }
    if spells(en, "harness protocol error: {0}") {
        return Some("智能体协议错误：{0}");
    }
    if spells(en, "Hidden from the sidebar, never deleted. Unarchiving puts a session back on its device.") {
        return Some("从侧边栏隐藏，不会删除。取消归档会让会话回到其所在设备。");
    }
    if spells(en, "Hide Others") {
        return Some("隐藏其他");
    }
    if spells(en, "Hide Zeron") {
        return Some("隐藏 Zeron");
    }
    if spells(en, "High") {
        return Some("高");
    }
    if spells(en, "High · 1M · Fast") {
        return Some("高 · 1M · 快速");
    }
    if spells(en, "History") {
        return Some("历史");
    }
    if spells(en, "How zeron picks between light and dark. This setting stays on this device.") {
        return Some("Zeron 如何在浅色和深色之间选择。此设置仅保存在本设备上。");
    }
    if spells(en, "Import didn't finish") {
        return Some("导入未完成");
    }
    if spells(en, "Importing session {n} of {total}") {
        return Some("正在导入会话 {n} / {total}");
    }
    if spells(en, "Input") {
        return Some("待输入");
    }
    if spells(en, "Install the {cli} CLI to enable") {
        return Some("安装 {cli} CLI 后才能启用");
    }
    if spells(en, "items") {
        return Some("模型发现超时");
    }
    if spells(en, "its device") {
        return Some("其设备");
    }
    if spells(en, "Jul 1, 3:45 PM") {
        return Some("7月1日 15:45");
    }
    if spells(en, "just now") {
        return Some("刚刚");
    }
    if spells(en, "Key expired") {
        return Some("密钥已过期");
    }
    if spells(en, "Key expires") {
        return Some("密钥");
    }
    if spells(en, "Keyboard shortcuts") {
        return Some("键盘快捷键");
    }
    None
}

/// Texts that start with L and M.
pub open spec fn zh_l_m(en: Seq<char>) -> Option<Seq<char>> {
    if en == "Language"@ {
        Some("语言"@)
    } else if en == "Last seen {when}"@ {
        Some("上次出现 {when}"@)
    } else if en == "Later"@ {
        Some("稍后"@)
    } else if en == "Latest turn"@ {
        Some("最新一轮"@)
    } else if en == "Light"@ {
        Some("浅色"@)
    } else if en == "light"@ {
        Some("浅色"@)
    } else if en == "Load more"@ {
        Some("加载更多"@)
    } else if en == "Loading full {what}…"@ {
        Some("正在加载完整{what}…"@)
    } else if en == "Loading history…"@ {
        Some("正在加载历史…"@)
    } else if en == "Loading…"@ {
        Some("正在加载…"@)
    } else if en == "Local"@ {
        Some("本机"@)
    } else if en == "Local checkout"@ {
        Some("当前工作区"@)
    } else if en == "Local development runtime"@ {
        Some("本地开发运行时"@)
    } else if en == "Local only"@ {
        Some("仅本地"@)
    } else if en == "local workspace"@ {
        Some("本地工作区"@)
    } else if en == "Log in"@ {
        Some("登录"@)
    } else if en == "Log in to Zeron"@ {
        Some("登录 Zeron"@)
    } else if en == "Login failed"@ {
        Some("登录失败"@)
    } else if en == "Login failed to start: {err}"@ {
        Some("登录未能开始：{err}"@)
    } else if en == "Looking for local sessions…"@ {
        Some("正在查找本地会话…"@)
    } else if en == "Low"@ {
        Some("低"@)
    } else if en == "Manage device details stored in this local workspace."@ {
        Some("管理存储在此本地工作区中的设备详情。"@)
    } else if en == "Manage device names and inspect synced device metadata."@ {
        Some("管理设备名称并查看已同步的设备元数据。"@)
    } else if en == "Manage device names for this workspace."@ {
        Some("管理此工作区的设备名称。"@)
    } else if en == "Medium"@ {
        Some("中"@)
    } else if en == "Merged"@ {
        Some("已合并"@)
    } else if en == "Messages will send once the connection recovers."@ {
        Some("连接恢复后会自动发送。"@)
    } else if en == "Minimal"@ {
        Some("最低"@)
    } else if en == "Minimize"@ {
        Some("最小化"@)
    } else if en == "Mode changed to {mode}"@ {
        Some("模式更改为 {mode}"@)
    } else {
        None
    }
}

fn find_l_m(en: &[char]) -> (r: Option<&'static str>)
    ensures
        opt_str(r) == zh_l_m(en@),
{
    if spells(en, "Language") {
        return Some("语言");
    }
    if spells(en, "Last seen {when}") {
        return Some("上次出现 {when}");
    }
    if spells(en, "Later") {
        return Some("稍后");
    }
    if spells(en, "Latest turn") {
        return Some("最新一轮");
    }
    if spells(en, "Light") {
        return Some("浅色");
    }
    if spells(en, "light") {
        return Some("浅色");
    }
    if spells(en, "Load more") {
        return Some("加载更多");
    }
    if spells(en, "Loading full {what}…") {
        return Some("正在加载完整{what}…");
    }
    if spells(en, "Loading history…") {
        return Some("正在加载历史…");
    }
    if spells(en, "Loading…") {
        return Some("正在加载…");
    }
    if spells(en, "Local") {
        return Some("本机");
    }
    if spells(en, "Local checkout") {
        return Some("当前工作区");
    }
    if spells(en, "Local development runtime") {
        return Some("本地开发运行时");
    }
    if spells(en, "Local only") {
        return Some("仅本地");
    }
    if spells(en, "local workspace") {
        return Some("本地工作区");
    }
    if spells(en, "Log in") {
        return Some("登录");
    }
    if spells(en, "Log in to Zeron") {
        return Some("登录 Zeron");
    }
    if spells(en, "Login failed") {
        return Some("登录失败");
    }
    if spells(en, "Login failed to start: {err}") {
        return Some("登录未能开始：{err}");
    }
    if spells(en, "Looking for local sessions…") {
        return Some("正在查找本地会话…");
    }
    if spells(en, "Low") {
        return Some("低");
    }
    if spells(en, "Manage device details stored in this local workspace.") {
        return Some("管理存储在此本地工作区中的设备详情。");
    }
    if spells(en, "Manage device names and inspect synced device metadata.") {
        return Some("管理设备名称并查看已同步的设备元数据。");
    }
    if spells(en, "Manage device names for this workspace.") {
        return Some("管理此工作区的设备名称。");
    }
    if spells(en, "Medium") {
        return Some("中");
    }
    if spells(en, "Merged") {
        return Some("已合并");
    }
    if spells(en, "Messages will send once the connection recovers.") {
        return Some("连接恢复后会自动发送。");
    }
    if spells(en, "Minimal") {
        return Some("最低");
    }
    if spells(en, "Minimize") {
        return Some("最小化");
    }
    if spells(en, "Mode changed to {mode}") {
        return Some("模式更改为 {mode}");
    }
    None
}

/// Texts that start with N.
pub open spec fn zh_n(en: Seq<char>) -> Option<Seq<char>> {
    if en == "Navigate"@ {
        Some("进入"@)
    } else if en == "never seen"@ {
        Some("从未出现"@)
    } else if en == "New file"@ {
        Some("新文件"@)
    } else if en == "New project…"@ {
        Some("新建项目…"@)
    } else if en == "New session"@ {
        Some("新会话"@)
    } else if en == "New worktree"@ {
        Some("新建工作树"@)
    } else if en == "No branch changes"@ {
        Some("没有分支更改"@)
    } else if en == "No branches"@ {
        Some("没有分支"@)
    } else if en == "No changes this turn"@ {
        Some("本轮没有更改"@)
    } else if en == "No changes vs develop"@ {
        Some("与 develop 相比没有更改"@)
    } else if en == "No changes vs {base}"@ {
        Some("与 {base} 相比没有更改"@)
    } else if en == "No commits found"@ {
        Some("没有找到提交"@)
    } else if en == "No devices match."@ {
        Some("没有匹配的设备。"@)
    } else if en == "No devices registered"@ {
        Some("尚未注册设备"@)
    } else if en == "No files available"@ {
        Some("暂无可用文件"@)
    } else if en == "No folders here"@ {
        Some("这里没有文件夹"@)
    } else if en == "No folders match"@ {
        Some("没有匹配的文件夹"@)
    } else if en == "No matching branches"@ {
        Some("没有匹配的分支"@)
    } else if en == "No matching commands"@ {
        Some("没有匹配的命令"@)
    } else if en == "No matching files"@ {
        Some("没有匹配的文件"@)
    } else if en == "No models found"@ {
        Some("未找到模型"@)
    } else if en == "No project"@ {
        Some("无项目"@)
    } else if en == "No project selected"@ {
        Some("未选择项目"@)
    } else if en == "No projects match."@ {
        Some("没有匹配的项目。"@)
    } else if en == "No projects on this device."@ {
        Some("此设备上没有项目。"@)
    } else if en == "No ref"@ {
        Some("无引用"@)
    } else if en == "No refs found."@ {
        Some("未找到引用。"@)
    } else if en == "No repository selected"@ {
        Some("未选择仓库"@)
    } else if en == "No sessions yet"@ {
        Some("还没有会话"@)
    } else if en == "No starred models yet — hit a row's star"@ {
        Some("还没有收藏的模型 —— 点击行的星标即可收藏"@)
    } else if en == "No turn recorded yet — send a message first"@ {
        Some("尚未记录到轮次 —— 请先发送一条消息"@)
    } else if en == "No uncommitted changes"@ {
        Some("没有未提交的更改"@)
    } else if en == "Normal"@ {
        Some("正常"@)
    } else if en == "Not delivered — click to retry"@ {
        Some("未送达 —— 点击重试"@)
    } else if en == "Not signed in"@ {
        Some("未登录"@)
    } else if en == "Nothing archived"@ {
        Some("没有已归档内容"@)
    } else if en == "Notifications"@ {
        Some("通知"@)
    } else if en == "Nous Research's Hermes Agent (hermes CLI)."@ {
        Some("Nous Research 的 Hermes 智能体（hermes CLI）。"@)
    } else if en == "now"@ {
        Some("刚刚"@)
    } else {
        None
    }
}

fn find_n(en: &[char]) -> (r: Option<&'static str>)
    ensures
        opt_str(r) == zh_n(en@),
{
    if spells(en, "Navigate") {
        return Some("进入");
    }
    if spells(en, "never seen") {
        return Some("从未出现");
    }
    if spells(en, "New file") {
        return Some("新文件");
    }
    if spells(en, "New project…") {
        return Some("新建项目…");
    }
    if spells(en, "New session") {
        return Some("新会话");
    }
    if spells(en, "New worktree") {
        return Some("新建工作树");
    }
    if spells(en, "No branch changes") {
        return Some("没有分支更改");
    }
    if spells(en, "No branches") {
        return Some("没有分支");
    }
    if spells(en, "No changes this turn") {
        return Some("本轮没有更改");
    }
    if spells(en, "No changes vs develop") {
        return Some("与 develop 相比没有更改");
    }
    if spells(en, "No changes vs {base}") {
        return Some("与 {base} 相比没有更改");
    }
    if spells(en, "No commits found") {
        return Some("没有找到提交");
    }
    if spells(en, "No devices match.") {
        return Some("没有匹配的设备。");
    }
    if spells(en, "No devices registered") {
        return Some("尚未注册设备");
    }
    if spells(en, "No files available") {
        return Some("暂无可用文件");
    }
    if spells(en, "No folders here") {
        return Some("这里没有文件夹");
    }
    if spells(en, "No folders match") {
        return Some("没有匹配的文件夹");
    }
    if spells(en, "No matching branches") {
        return Some("没有匹配的分支");
    }
    if spells(en, "No matching commands") {
        return Some("没有匹配的命令");
    }
    if spells(en, "No matching files") {
        return Some("没有匹配的文件");
    }
    if spells(en, "No models found") {
        return Some("未找到模型");
    }
    if spells(en, "No project") {
        return Some("无项目");
    }
    if spells(en, "No project selected") {
        return Some("未选择项目");
    }
    if spells(en, "No projects match.") {
        return Some("没有匹配的项目。");
    }
    if spells(en, "No projects on this device.") {
        return Some("此设备上没有项目。");
    }
    if spells(en, "No ref") {
        return Some("无引用");
    }
    if spells(en, "No refs found.") {
        return Some("未找到引用。");
    }
    if spells(en, "No repository selected") {
        return Some("未选择仓库");
    }
    if spells(en, "No sessions yet") {
        return Some("还没有会话");
    }
    if spells(en, "No starred models yet — hit a row's star") {
        return Some("还没有收藏的模型 —— 点击行的星标即可收藏");
    }
    if spells(en, "No turn recorded yet — send a message first") {
        return Some("尚未记录到轮次 —— 请先发送一条消息");
    }
    if spells(en, "No uncommitted changes") {
        return Some("没有未提交的更改");
    }
    if spells(en, "Normal") {
        return Some("正常");
    }
    if spells(en, "Not delivered — click to retry") {
        return Some("未送达 —— 点击重试");
    }
    if spells(en, "Not signed in") {
        return Some("未登录");
    }
    if spells(en, "Nothing archived") {
        return Some("没有已归档内容");
    }
    if spells(en, "Notifications") {
        return Some("通知");
    }
    if spells(en, "Nous Research's Hermes Agent (hermes CLI).") {
        return Some("Nous Research 的 Hermes 智能体（hermes CLI）。");
    }
    if spells(en, "now") {
        return Some("刚刚");
    }
    None
}

/// Texts that start with O to Q.
pub open spec fn zh_o_q(en: Seq<char>) -> Option<Seq<char>> {
    if en == "Off"@ {
        Some("关闭"@)
    } else if en == "Offline — messages will send when you're back online."@ {
        Some("离线 —— 连上后会自动发送。"@)
    } else if en == "Offline — sends are saved"@ {
        Some("离线 —— 发送已保存"@)
    } else if en == "On"@ {
        Some("开启"@)
    } else if en == "Open"@ {
        Some("开放"@)
    } else if en == "Open a blank session canvas to start a new session."@ {
        Some("打开空白会话画布以开始新会话。"@)
    } else if en == "Open a surface"@ {
        Some("打开面板"@)
    } else if en == "Open browser again"@ {
        Some("重新打开浏览器"@)
    } else if en == "OpenAI's coding agent, driven through the Codex CLI."@ {
        Some("OpenAI 的编程智能体，通过 Codex CLI 驱动。"@)
    } else if en == "OpenCode model discovery did not complete within"@ {
        Some("模型发现未在"@)
    } else if en == "Or continue in a workspace you belong to"@ {
        Some("或继续使用你所属的工作区"@)
    } else if en == "output"@ {
        Some("输出"@)
    } else if en == "overage"@ {
        Some("超额"@)
    } else if en == "Partial snapshot"@ {
        Some("部分快照"@)
    } else if en == "Paste"@ {
        Some("粘贴"@)
    } else if en == "Paste the authorization code"@ {
        Some("粘贴授权码"@)
    } else if en == "Patch"@ {
        Some("补丁"@)
    } else if en == "Poll failed: malformed reply"@ {
        Some("轮询失败：回复格式不对"@)
    } else if en == "Poll failed: {err}"@ {
        Some("轮询失败：{err}"@)
    } else if en == "Press Escape to cancel."@ {
        Some("按 Esc 取消。"@)
    } else if en == "Press keys…"@ {
        Some("按下按键…"@)
    } else if en == "Project name"@ {
        Some("项目名称"@)
    } else if en == "provider"@ {
        Some("供应商"@)
    } else if en == "Question"@ {
        Some("提问"@)
    } else if en == "Queued"@ {
        Some("已排队"@)
    } else if en == "Queued — will send automatically"@ {
        Some("已排队 —— 将自动发送"@)
    } else if en == "Quit and reopen Zeron to start the synced workspace. Existing local sessions stay on this device and will not be uploaded."@ {
        Some("退出并重新打开 Zeron 以启动同步工作区。现有本地会话保留在本设备上，不会上传。"@)
    } else if en == "Quit Zeron"@ {
        Some("退出 Zeron"@)
    } else {
        None
    }
}

fn find_o_q(en: &[char]) -> (r: Option<&'static str>)
    ensures
        opt_str(r) == zh_o_q(en@),
{
    if spells(en, "Off") {
        return Some("关闭");
    }
    if spells(en, "Offline — messages will send when you're back online.") {
        return Some("离线 —— 连上后会自动发送。");
    }
    if spells(en, "Offline — sends are saved") {
        return Some("离线 —— 发送已保存");
    }
    if spells(en, "On") {
        return Some("开启");
    }
    if spells(en, "Open") {
        return Some("开放");
    }
    if spells(en, "Open a blank session canvas to start a new session.") {
        return Some("打开空白会话画布以开始新会话。");
    }
    if spells(en, "Open a surface") {
        return Some("打开面板");
    }
    if spells(en, "Open browser again") {
        return Some("重新打开浏览器");
    }
    if spells(en, "OpenAI's coding agent, driven through the Codex CLI.") {
        return Some("OpenAI 的编程智能体，通过 Codex CLI 驱动。");
    }
    if spells(en, "OpenCode model discovery did not complete within") {
        return Some("模型发现未在");
    }
    if spells(en, "Or continue in a workspace you belong to") {
        return Some("或继续使用你所属的工作区");
    }
    if spells(en, "output") {
        return Some("输出");
    }
    if spells(en, "overage") {
        return Some("超额");
    }
    if spells(en, "Partial snapshot") {
        return Some("部分快照");
    }
    if spells(en, "Paste") {
        return Some("粘贴");
    }
    if spells(en, "Paste the authorization code") {
        return Some("粘贴授权码");
    }
    if spells(en, "Patch") {
        return Some("补丁");
    }
    if spells(en, "Poll failed: malformed reply") {
        return Some("轮询失败：回复格式不对");
    }
    if spells(en, "Poll failed: {err}") {
        return Some("轮询失败：{err}");
    }
    if spells(en, "Press Escape to cancel.") {
        return Some("按 Esc 取消。");
    }
    if spells(en, "Press keys…") {
        return Some("按下按键…");
    }
    if spells(en, "Project name") {
        return Some("项目名称");
    }
    if spells(en, "provider") {
        return Some("供应商");
    }
    if spells(en, "Question") {
        return Some("提问");
    }
    if spells(en, "Queued") {
        return Some("已排队");
    }
    if spells(en, "Queued — will send automatically") {
        return Some("已排队 —— 将自动发送");
    }
    if spells(en, "Quit and reopen Zeron to start the synced workspace. Existing local sessions stay on this device and will not be uploaded.") {
        return Some("退出并重新打开 Zeron 以启动同步工作区。现有本地会话保留在本设备上，不会上传。");
    }
    if spells(en, "Quit Zeron") {
        return Some("退出 Zeron");
    }
    None
}

/// Texts that start with R.
pub open spec fn zh_r(en: Seq<char>) -> Option<Seq<char>> {
    if en == "Ran 1 command · 1 failed"@ {
        Some("运行了 1 个命令 · 1 个失败"@)
    } else if en == "Ran 3 commands · edited 2 files"@ {
        Some("运行了 3 个命令 · 修改了 2 个文件"@)
    } else if en == "Read"@ {
        Some("读取"@)
    } else if en == "Read 1 file · searched 2 times"@ {
        Some("读取了 1 个文件 · 搜索了 2 次"@)
    } else if en == "Reasoning"@ {
        Some("推理"@)
    } else if en == "Reconnecting…"@ {
        Some("正在重连…"@)
    } else if en == "Redo"@ {
        Some("重做"@)
    } else if en == "Remote branch"@ {
        Some("远程分支"@)
    } else if en == "Remote branch: origin/main"@ {
        Some("远程分支：origin/main"@)
    } else if en == "Remove"@ {
        Some("移除"@)
    } else if en == "Remove project?"@ {
        Some("移除项目？"@)
    } else if en == "Remove…"@ {
        Some("移除…"@)
    } else if en == "Removing account credentials and closing the synced workspace."@ {
        Some("正在移除账户凭据并关闭同步工作区。"@)
    } else if en == "Removing the partial sign-in before returning to your local workspace."@ {
        Some("正在移除未完成的登录，然后返回本地工作区。"@)
    } else if en == "Removing “{name}” permanently deletes its 1 session on {device}. This can’t be undone."@ {
        Some("移除“{name}”将永久删除其 {device} 上的 1 个会话。此操作无法撤销。"@)
    } else if en == "Removing “{name}” permanently deletes its {count} sessions on {device}. This can’t be undone."@ {
        Some("移除“{name}”将永久删除其 {device} 上的 {count} 个会话。此操作无法撤销。"@)
    } else if en == "Rename"@ {
        Some("重命名"@)
    } else if en == "Rename device"@ {
        Some("重命名设备"@)
    } else if en == "Rename failed: {err}"@ {
        Some("重命名失败：{err}"@)
    } else if en == "Rename project"@ {
        Some("重命名项目"@)
    } else if en == "Rename session"@ {
        Some("重命名会话"@)
    } else if en == "Renamed from {from}"@ {
        Some("重命名自 {from}"@)
    } else if en == "Rename…"@ {
        Some("重命名…"@)
    } else if en == "Reopen the sign-in page"@ {
        Some("重新打开登录页面"@)
    } else if en == "Reset"@ {
        Some("重置"@)
    } else if en == "Restore defaults"@ {
        Some("恢复默认"@)
    } else if en == "Retry"@ {
        Some("重试"@)
    } else if en == "Retry import"@ {
        Some("重试导入"@)
    } else if en == "Retry local mode"@ {
        Some("重试本地模式"@)
    } else if en == "Right-click a session in the sidebar to archive it."@ {
        Some("在侧边栏右键点击会话即可归档。"@)
    } else if en == "Run"@ {
        Some("运行"@)
    } else if en == "Run failed"@ {
        Some("运行失败"@)
    } else if en == "Run finished"@ {
        Some("运行完成"@)
    } else if en == "Run interrupted by engine restart"@ {
        Some("运行被引擎重启中断"@)
    } else if en == "Run interrupted by engine restart — resuming"@ {
        Some("运行被引擎重启中断 —— 正在恢复"@)
    } else {
        None
    }
}

fn find_r(en: &[char]) -> (r: Option<&'static str>)
    ensures
        opt_str(r) == zh_r(en@),
{
    if spells(en, "Ran 1 command · 1 failed") {
        return Some("运行了 1 个命令 · 1 个失败");
    }
    if spells(en, "Ran 3 commands · edited 2 files") {
        return Some("运行了 3 个命令 · 修改了 2 个文件");
    }
    if spells(en, "Read") {
        return Some("读取");
    }
    if spells(en, "Read 1 file · searched 2 times") {
        return Some("读取了 1 个文件 · 搜索了 2 次");
    }
    if spells(en, "Reasoning") {
        return Some("推理");
    }
    if spells(en, "Reconnecting…") {
        return Some("正在重连…");
    }
    if spells(en, "Redo") {
        return Some("重做");
    }
    if spells(en, "Remote branch") {
        return Some("远程分支");
    }
    if spells(en, "Remote branch: origin/main") {
        return Some("远程分支：origin/main");
    }
    if spells(en, "Remove") {
        return Some("移除");
    }
    if spells(en, "Remove project?") {
        return Some("移除项目？");
    }
    if spells(en, "Remove…") {
        return Some("移除…");
    }
    if spells(en, "Removing account credentials and closing the synced workspace.") {
        return Some("正在移除账户凭据并关闭同步工作区。");
    }
    if spells(en, "Removing the partial sign-in before returning to your local workspace.") {
        return Some("正在移除未完成的登录，然后返回本地工作区。");
    }
    if spells(en, "Removing “{name}” permanently deletes its 1 session on {device}. This can’t be undone.") {
        return Some("移除“{name}”将永久删除其 {device} 上的 1 个会话。此操作无法撤销。");
    }
    if spells(en, "Removing “{name}” permanently deletes its {count} sessions on {device}. This can’t be undone.") {
        return Some("移除“{name}”将永久删除其 {device} 上的 {count} 个会话。此操作无法撤销。");
    }
    if spells(en, "Rename") {
        return Some("重命名");
    }
    if spells(en, "Rename device") {
        return Some("重命名设备");
    }
    if spells(en, "Rename failed: {err}") {
        return Some("重命名失败：{err}");
    }
    if spells(en, "Rename project") {
        return Some("重命名项目");
    }
    if spells(en, "Rename session") {
        return Some("重命名会话");
    }
    if spells(en, "Renamed from {from}") {
        return Some("重命名自 {from}");
    }
    if spells(en, "Rename…") {
        return Some("重命名…");
    }
    if spells(en, "Reopen the sign-in page") {
        return Some("重新打开登录页面");
    }
    if spells(en, "Reset") {
        return Some("重置");
    }
    if spells(en, "Restore defaults") {
        return Some("恢复默认");
    }
    if spells(en, "Retry") {
        return Some("重试");
    }
    if spells(en, "Retry import") {
        return Some("重试导入");
    }
    if spells(en, "Retry local mode") {
        return Some("重试本地模式");
    }
    if spells(en, "Right-click a session in the sidebar to archive it.") {
        return Some("在侧边栏右键点击会话即可归档。");
    }
    if spells(en, "Run") {
        return Some("运行");
    }
    if spells(en, "Run failed") {
        return Some("运行失败");
    }
    if spells(en, "Run finished") {
        return Some("运行完成");
    }
    if spells(en, "Run interrupted by engine restart") {
        return Some("运行被引擎重启中断");
    }
    if spells(en, "Run interrupted by engine restart — resuming") {
        return Some("运行被引擎重启中断 —— 正在恢复");
    }
    None
}

/// Texts that start with S.
pub open spec fn zh_s(en: Seq<char>) -> Option<Seq<char>> {
    if en == "Scripted test harness."@ {
        Some("脚本化测试智能体。"@)
    } else if en == "Search"@ {
        Some("搜索"@)
    } else if en == "Search devices…"@ {
        Some("搜索设备…"@)
    } else if en == "Search folders…"@ {
        Some("搜索文件夹…"@)
    } else if en == "Search models…"@ {
        Some("搜索模型…"@)
    } else if en == "Search projects…"@ {
        Some("搜索项目…"@)
    } else if en == "Search refs…"@ {
        Some("搜索引用…"@)
    } else if en == "Search…"@ {
        Some("搜索…"@)
    } else if en == "See the attached image(s)."@ {
        Some("查看所附图片。"@)
    } else if en == "Select a chat to open a terminal"@ {
        Some("选择会话以打开终端"@)
    } else if en == "Select All"@ {
        Some("全选"@)
    } else if en == "Select ref"@ {
        Some("选择引用"@)
    } else if en == "Send failed: {e}"@ {
        Some("发送失败：{e}"@)
    } else if en == "Sending"@ {
        Some("发送中"@)
    } else if en == "Sending…"@ {
        Some("正在发送…"@)
    } else if en == "Service Tier"@ {
        Some("速度档位"@)
    } else if en == "Services"@ {
        Some("服务"@)
    } else if en == "Session"@ {
        Some("本轮"@)
    } else if en == "Session title"@ {
        Some("会话标题"@)
    } else if en == "Settings"@ {
        Some("设置"@)
    } else if en == "Shell"@ {
        Some("命令行"@)
    } else if en == "Shortcuts"@ {
        Some("快捷键"@)
    } else if en == "Shortcuts must be unique."@ {
        Some("快捷键必须唯一。"@)
    } else if en == "Show All"@ {
        Some("全部显示"@)
    } else if en == "Show full {what}"@ {
        Some("显示完整{what}"@)
    } else if en == "Show full {what} ({size})"@ {
        Some("显示完整{what} ({size})"@)
    } else if en == "Show or hide changes for the current session."@ {
        Some("显示或隐藏当前会话的更改。"@)
    } else if en == "Show or hide sessions and settings navigation."@ {
        Some("显示或隐藏会话与设置导航。"@)
    } else if en == "Show or hide the terminal for the current session."@ {
        Some("显示或隐藏当前会话的终端。"@)
    } else if en == "Show {remaining} more"@ {
        Some("再显示 {remaining} 个"@)
    } else if en == "Showing folders from {device_name} only"@ {
        Some("仅显示来自 {device_name} 的文件夹"@)
    } else if en == "Showing {shown} of {total} refs"@ {
        Some("显示 {shown} / {total} 个引用"@)
    } else if en == "Sign in failed: {err}"@ {
        Some("登录失败：{err}"@)
    } else if en == "Sign out"@ {
        Some("退出登录"@)
    } else if en == "Sign out failed: {error}"@ {
        Some("退出登录失败：{error}"@)
    } else if en == "Sign out?"@ {
        Some("退出登录？"@)
    } else if en == "Signed out"@ {
        Some("已退出登录"@)
    } else if en == "Signing out…"@ {
        Some("正在退出登录…"@)
    } else if en == "Sounds"@ {
        Some("声音"@)
    } else if en == "Speed"@ {
        Some("速度"@)
    } else if en == "SST's opencode agent (opencode CLI)."@ {
        Some("SST 的 opencode 智能体（opencode CLI）。"@)
    } else if en == "Standard"@ {
        Some("标准"@)
    } else if en == "Standard · Normal"@ {
        Some("标准 · 正常"@)
    } else if en == "Start fresh"@ {
        Some("重新开始"@)
    } else if en == "Stop daemon and quit"@ {
        Some("停止守护进程并退出"@)
    } else if en == "Stop failed: {err}"@ {
        Some("停止失败：{err}"@)
    } else if en == "Stopping engine…"@ {
        Some("正在停止引擎…"@)
    } else if en == "Stored on this device"@ {
        Some("存储在本设备"@)
    } else if en == "Switch"@ {
        Some("切换"@)
    } else if en == "Switch now"@ {
        Some("立即切换"@)
    } else if en == "Switching to your synced workspace…"@ {
        Some("正在切换到你的同步工作区…"@)
    } else if en == "Switching…"@ {
        Some("切换中…"@)
    } else if en == "Sync is ready"@ {
        Some("同步已就绪"@)
    } else if en == "Sync needs a restart"@ {
        Some("同步需要重启"@)
    } else if en == "Sync ready after restart"@ {
        Some("重启后同步就绪"@)
    } else if en == "Sync setup in progress"@ {
        Some("同步设置进行中"@)
    } else if en == "System"@ {
        Some("系统"@)
    } else {
        None
    }
}

fn find_s(en: &[char]) -> (r: Option<&'static str>)
    ensures
        opt_str(r) == zh_s(en@),
{
    if spells(en, "Scripted test harness.") {
        return Some("脚本化测试智能体。");
    }
    if spells(en, "Search") {
        return Some("搜索");
    }
    if spells(en, "Search devices…") {
        return Some("搜索设备…");
    }
    if spells(en, "Search folders…") {
        return Some("搜索文件夹…");
    }
    if spells(en, "Search models…") {
        return Some("搜索模型…");
    }
    if spells(en, "Search projects…") {
        return Some("搜索项目…");
    }
    if spells(en, "Search refs…") {
        return Some("搜索引用…");
    }
    if spells(en, "Search…") {
        return Some("搜索…");
    }
    if spells(en, "See the attached image(s).") {
        return Some("查看所附图片。");
    }
    if spells(en, "Select a chat to open a terminal") {
        return Some("选择会话以打开终端");
    }
    if spells(en, "Select All") {
        return Some("全选");
    }
    if spells(en, "Select ref") {
        return Some("选择引用");
    }
    if spells(en, "Send failed: {e}") {
        return Some("发送失败：{e}");
    }
    if spells(en, "Sending") {
        return Some("发送中");
    }
    if spells(en, "Sending…") {
        return Some("正在发送…");
    }
    if spells(en, "Service Tier") {
        return Some("速度档位");
    }
    if spells(en, "Services") {
        return Some("服务");
    }
    if spells(en, "Session") {
        return Some("本轮");
    }
    if spells(en, "Session title") {
        return Some("会话标题");
    }
    if spells(en, "Settings") {
        return Some("设置");
    }
    if spells(en, "Shell") {
        return Some("命令行");
    }
    if spells(en, "Shortcuts") {
        return Some("快捷键");
    }
    if spells(en, "Shortcuts must be unique.") {
        return Some("快捷键必须唯一。");
    }
    if spells(en, "Show All") {
        return Some("全部显示");
    }
    if spells(en, "Show full {what}") {
        return Some("显示完整{what}");
    }
    if spells(en, "Show full {what} ({size})") {
        return Some("显示完整{what} ({size})");
    }
    if spells(en, "Show or hide changes for the current session.") {
        return Some("显示或隐藏当前会话的更改。");
    }
    if spells(en, "Show or hide sessions and settings navigation.") {
        return Some("显示或隐藏会话与设置导航。");
    }
    if spells(en, "Show or hide the terminal for the current session.") {
        return Some("显示或隐藏当前会话的终端。");
    }
    if spells(en, "Show {remaining} more") {
        return Some("再显示 {remaining} 个");
    }
    if spells(en, "Showing folders from {device_name} only") {
        return Some("仅显示来自 {device_name} 的文件夹");
    }
    if spells(en, "Showing {shown} of {total} refs") {
        return Some("显示 {shown} / {total} 个引用");
    }
    if spells(en, "Sign in failed: {err}") {
        return Some("登录失败：{err}");
    }
    if spells(en, "Sign out") {
        return Some("退出登录");
    }
    if spells(en, "Sign out failed: {error}") {
        return Some("退出登录失败：{error}");
    }
    if spells(en, "Sign out?") {
        return Some("退出登录？");
    }
    if spells(en, "Signed out") {
        return Some("已退出登录");
    }
    if spells(en, "Signing out…") {
        return Some("正在退出登录…");
    }
    if spells(en, "Sounds") {
        return Some("声音");
    }
    if spells(en, "Speed") {
        return Some("速度");
    }
    if spells(en, "SST's opencode agent (opencode CLI).") {
        return Some("SST 的 opencode 智能体（opencode CLI）。");
    }
    if spells(en, "Standard") {
        return Some("标准");
    }
    if spells(en, "Standard · Normal") {
        return Some("标准 · 正常");
    }
    if spells(en, "Start fresh") {
        return Some("重新开始");
    }
    if spells(en, "Stop daemon and quit") {
        return Some("停止守护进程并退出");
    }
    if spells(en, "Stop failed: {err}") {
        return Some("停止失败：{err}");
    }
    if spells(en, "Stopping engine…") {
        return Some("正在停止引擎…");
    }
    if spells(en, "Stored on this device") {
        return Some("存储在本设备");
    }
    if spells(en, "Switch") {
        return Some("切换");
    }
    if spells(en, "Switch now") {
        return Some("立即切换");
    }
    if spells(en, "Switching to your synced workspace…") {
        return Some("正在切换到你的同步工作区…");
    }
    if spells(en, "Switching…") {
        return Some("切换中…");
    }
    if spells(en, "Sync is ready") {
        return Some("同步已就绪");
    }
    if spells(en, "Sync needs a restart") {
        return Some("同步需要重启");
    }
    if spells(en, "Sync ready after restart") {
        return Some("重启后同步就绪");
    }
    if spells(en, "Sync setup in progress") {
        return Some("同步设置进行中");
    }
    if spells(en, "System") {
        return Some("系统");
    }
    None
}

/// Texts that start with T.
pub open spec fn zh_t(en: Seq<char>) -> Option<Seq<char>> {
    if en == "Tag"@ {
        Some("标签"@)
    } else if en == "Tag: v0.1.52"@ {
        Some("标签：v0.1.52"@)
    } else if en == "Terminal"@ {
        Some("终端"@)
    } else if en == "Terminal {tab_no}"@ {
        Some("终端 {tab_no}"@)
    } else if en == "Text"@ {
        Some("文本"@)
    } else if en == "the 1 project"@ {
        Some("1 个项目"@)
    } else if en == "the 1 session and 2 projects"@ {
        Some("1 个会话和 2 个项目"@)
    } else if en == "the 2 sessions"@ {
        Some("2 个会话"@)
    } else if en == "The agent process is likely wedged."@ {
        Some("智能体进程可能卡住了。"@)
    } else if en == "the daemon did not finish stopping within {secs} seconds"@ {
        Some("守护进程未在 {secs} 秒内停止"@)
    } else if en == "The import stream ended before it finished."@ {
        Some("导入流提前结束。"@)
    } else if en == "The pi coding agent (pi CLI)."@ {
        Some("pi 编程智能体（pi CLI）。"@)
    } else if en == "The reply hit the maximum output length."@ {
        Some("回复已达到最大输出长度。"@)
    } else if en == "The run ended with an error."@ {
        Some("运行因错误结束。"@)
    } else if en == "The run exhausted its structured-output retries."@ {
        Some("运行已耗尽结构化输出重试次数。"@)
    } else if en == "The run hit its cost budget."@ {
        Some("运行已达到费用预算。"@)
    } else if en == "The run hit the maximum number of turns."@ {
        Some("运行已达到最大轮数。"@)
    } else if en == "The selected model isn't available."@ {
        Some("所选模型不可用。"@)
    } else if en == "The session's device is unreachable"@ {
        Some("无法连接会话所在设备"@)
    } else if en == "The session's device runs an older zeron — update it to list commands"@ {
        Some("会话所在设备的 Zeron 版本过旧，请更新后再加载命令"@)
    } else if en == "The session's device runs an older zeron — update it to search its files"@ {
        Some("会话所在设备的 Zeron 版本过旧，请更新后再搜索文件"@)
    } else if en == "The synced workspace did not come up — restart to finish."@ {
        Some("同步工作区未能启动——重启以完成。"@)
    } else if en == "Theme"@ {
        Some("主题"@)
    } else if en == "Thinking"@ {
        Some("思考模式"@)
    } else if en == "This agent has no slash commands"@ {
        Some("此智能体没有可用的斜杠命令"@)
    } else if en == "This chat's device is running an older Zeron — update it to view branch and turn diffs"@ {
        Some("此会话所在设备运行的 Zeron 版本较旧 —— 请更新以查看分支和轮次差异"@)
    } else if en == "This device"@ {
        Some("本设备"@)
    } else if en == "this project"@ {
        Some("此项目"@)
    } else if en == "Todo"@ {
        Some("待办"@)
    } else if en == "Toggle left sidebar"@ {
        Some("切换左侧栏"@)
    } else if en == "Toggle right sidebar"@ {
        Some("切换右侧栏"@)
    } else if en == "Toggle terminal"@ {
        Some("切换终端"@)
    } else if en == "Tool"@ {
        Some("工具"@)
    } else if en == "Traits"@ {
        Some("参数"@)
    } else if en == "Type your own answer, or leave this blank to use the selected option"@ {
        Some("输入你的回答，留空则使用所选选项"@)
    } else if en == "Type your own answer, or pick an option above"@ {
        Some("输入你的回答，或选择上面的选项"@)
    } else {
        None
    }
}

fn find_t(en: &[char]) -> (r: Option<&'static str>)
    ensures
        opt_str(r) == zh_t(en@),
{
    if spells(en, "Tag") {
        return Some("标签");
    }
    if spells(en, "Tag: v0.1.52") {
        return Some("标签：v0.1.52");
    }
    if spells(en, "Terminal") {
        return Some("终端");
    }
    if spells(en, "Terminal {tab_no}") {
        return Some("终端 {tab_no}");
    }
    if spells(en, "Text") {
        return Some("文本");
    }
    if spells(en, "the 1 project") {
        return Some("1 个项目");
    }
    if spells(en, "the 1 session and 2 projects") {
        return Some("1 个会话和 2 个项目");
    }
    if spells(en, "the 2 sessions") {
        return Some("2 个会话");
    }
    if spells(en, "The agent process is likely wedged.") {
        return Some("智能体进程可能卡住了。");
    }
    if spells(en, "the daemon did not finish stopping within {secs} seconds") {
        return Some("守护进程未在 {secs} 秒内停止");
    }
    if spells(en, "The import stream ended before it finished.") {
        return Some("导入流提前结束。");
    }
    if spells(en, "The pi coding agent (pi CLI).") {
        return Some("pi 编程智能体（pi CLI）。");
    }
    if spells(en, "The reply hit the maximum output length.") {
        return Some("回复已达到最大输出长度。");
    }
    if spells(en, "The run ended with an error.") {
        return Some("运行因错误结束。");
    }
    if spells(en, "The run exhausted its structured-output retries.") {
        return Some("运行已耗尽结构化输出重试次数。");
    }
    if spells(en, "The run hit its cost budget.") {
        return Some("运行已达到费用预算。");
    }
    if spells(en, "The run hit the maximum number of turns.") {
        return Some("运行已达到最大轮数。");
    }
    if spells(en, "The selected model isn't available.") {
        return Some("所选模型不可用。");
    }
    if spells(en, "The session's device is unreachable") {
        return Some("无法连接会话所在设备");
    }
    if spells(en, "The session's device runs an older zeron — update it to list commands") {
        return Some("会话所在设备的 Zeron 版本过旧，请更新后再加载命令");
    }
    if spells(en, "The session's device runs an older zeron — update it to search its files") {
        return Some("会话所在设备的 Zeron 版本过旧，请更新后再搜索文件");
    }
    if spells(en, "The synced workspace did not come up — restart to finish.") {
        return Some("同步工作区未能启动——重启以完成。");
    }
    if spells(en, "Theme") {
        return Some("主题");
    }
    if spells(en, "Thinking") {
        return Some("思考模式");
    }
    if spells(en, "This agent has no slash commands") {
        return Some("此智能体没有可用的斜杠命令");
    }
    if spells(en, "This chat's device is running an older Zeron — update it to view branch and turn diffs") {
        return Some("此会话所在设备运行的 Zeron 版本较旧 —— 请更新以查看分支和轮次差异");
    }
    if spells(en, "This device") {
        return Some("本设备");
    }
    if spells(en, "this project") {
        return Some("此项目");
    }
    if spells(en, "Todo") {
        return Some("待办");
    }
    if spells(en, "Toggle left sidebar") {
        return Some("切换左侧栏");
    }
    if spells(en, "Toggle right sidebar") {
        return Some("切换右侧栏");
    }
    if spells(en, "Toggle terminal") {
        return Some("切换终端");
    }
    if spells(en, "Tool") {
        return Some("工具");
    }
    if spells(en, "Traits") {
        return Some("参数");
    }
    if spells(en, "Type your own answer, or leave this blank to use the selected option") {
        return Some("输入你的回答，留空则使用所选选项");
    }
    if spells(en, "Type your own answer, or pick an option above") {
        return Some("输入你的回答，或选择上面的选项");
    }
    None
}

/// Texts that start with U to Z.
pub open spec fn zh_u_z(en: Seq<char>) -> Option<Seq<char>> {
    if en == "Unarchive"@ {
        Some("取消归档"@)
    } else if en == "Unarchive failed: {err}"@ {
        Some("取消归档失败：{err}"@)
    } else if en == "Unarchiving…"@ {
        Some("正在取消归档…"@)
    } else if en == "Undo"@ {
        Some("撤销"@)
    } else if en == "Unknown"@ {
        Some("未知"@)
    } else if en == "Unknown account"@ {
        Some("未知账号"@)
    } else if en == "Unknown device"@ {
        Some("未知设备"@)
    } else if en == "unknown error"@ {
        Some("未知错误"@)
    } else if en == "Untitled session"@ {
        Some("未命名会话"@)
    } else if en == "Up"@ {
        Some("上一级"@)
    } else if en == "Update failed: {message}"@ {
        Some("更新失败：{message}"@)
    } else if en == "Update ready — restart to apply"@ {
        Some("更新就绪——重启生效"@)
    } else if en == "usage"@ {
        Some("使用量"@)
    } else if en == "Usage unavailable"@ {
        Some("用量暂不可用"@)
    } else if en == "Use a different account"@ {
        Some("使用其他账号"@)
    } else if en == "Verifying…"@ {
        Some("验证中…"@)
    } else if en == "View"@ {
        Some("视图"@)
    } else if en == "Waiting for the browser…"@ {
        Some("等待浏览器完成登录…"@)
    } else if en == "Waiting on your input"@ {
        Some("等待你的输入"@)
    } else if en == "Web"@ {
        Some("网页"@)
    } else if en == "Week"@ {
        Some("本周"@)
    } else if en == "weekly"@ {
        Some("每周"@)
    } else if en == "weekly (Opus)"@ {
        Some("每周（Opus）"@)
    } else if en == "weekly (Sonnet)"@ {
        Some("每周（Sonnet）"@)
    } else if en == "whatever the system"@ {
        Some("无论系统设置如何"@)
    } else if en == "Window"@ {
        Some("窗口"@)
    } else if en == "Working"@ {
        Some("工作中"@)
    } else if en == "Working tree"@ {
        Some("工作区"@)
    } else if en == "workspace"@ {
        Some("工作区"@)
    } else if en == "Workspace name"@ {
        Some("工作区名称"@)
    } else if en == "Worktree"@ {
        Some("工作树"@)
    } else if en == "Write"@ {
        Some("写入"@)
    } else if en == "X-High"@ {
        Some("极高"@)
    } else if en == "xAI's Grok Build agent (grok CLI)."@ {
        Some("xAI 的 Grok Build 智能体（grok CLI）。"@)
    } else if en == "You"@ {
        Some("本机"@)
    } else if en == "You're signed in as {email}. Bring {phrase} from this device into your synced workspace, or start it fresh."@ {
        Some("你已以 {email} 身份登录。将此设备上的 {phrase} 带入同步工作区，或全新开始。"@)
    } else if en == "You're signed in as {email}. Zeron can switch to your synced workspace now."@ {
        Some("你已以 {email} 身份登录。Zeron 现在可以切换到你的同步工作区。"@)
    } else if en == "Zeron can switch to your synced workspace now."@ {
        Some("Zeron 现在可以切换到你的同步工作区。"@)
    } else if en == "Zeron is using a background daemon. Stop it and quit Zeron, then reopen to start the synced workspace. Existing local sessions stay on this device and will not be uploaded."@ {
        Some("Zeron 正在使用后台守护进程。请停止它并退出 Zeron，然后重新打开以启动同步工作区。现有本地会话保留在本设备上，不会上传。"@)
    } else if en == "Zeron removed your credentials but could not finish closing the previous synced workspace. Retry before continuing in local mode."@ {
        Some("Zeron 已移除你的凭据，但未能完成关闭之前的同步工作区。在继续本地模式前请重试。"@)
    } else if en == "Zeron uses English."@ {
        Some("Zeron 使用英文。"@)
    } else if en == "Zeron will remove your credentials, close the synced workspace, and continue in local mode."@ {
        Some("Zeron 将移除你的凭据，关闭同步工作区，并继续以本地模式运行。"@)
    } else if en == "Zoom"@ {
        Some("缩放"@)
    } else {
        None
    }
}

fn find_u_z(en: &[char]) -> (r: Option<&'static str>)
    ensures
        opt_str(r) == zh_u_z(en@),
{
    if spells(en, "Unarchive") {
        return Some("取消归档");
    }
    if spells(en, "Unarchive failed: {err}") {
        return Some("取消归档失败：{err}");
    }
    if spells(en, "Unarchiving…") {
        return Some("正在取消归档…");
    }
    if spells(en, "Undo") {
        return Some("撤销");
    }
    if spells(en, "Unknown") {
        return Some("未知");
    }
    if spells(en, "Unknown account") {
        return Some("未知账号");
    }
    if spells(en, "Unknown device") {
        return Some("未知设备");
    }
    if spells(en, "unknown error") {
        return Some("未知错误");
    }
    if spells(en, "Untitled session") {
        return Some("未命名会话");
    }
    if spells(en, "Up") {
        return Some("上一级");
    }
    if spells(en, "Update failed: {message}") {
        return Some("更新失败：{message}");
    }
    if spells(en, "Update ready — restart to apply") {
        return Some("更新就绪——重启生效");
    }
    if spells(en, "usage") {
        return Some("使用量");
    }
    if spells(en, "Usage unavailable") {
        return Some("用量暂不可用");
    }
    if spells(en, "Use a different account") {
        return Some("使用其他账号");
    }
    if spells(en, "Verifying…") {
        return Some("验证中…");
    }
    if spells(en, "View") {
        return Some("视图");
    }
    if spells(en, "Waiting for the browser…") {
        return Some("等待浏览器完成登录…");
    }
    if spells(en, "Waiting on your input") {
        return Some("等待你的输入");
    }
    if spells(en, "Web") {
        return Some("网页");
    }
    if spells(en, "Week") {
        return Some("本周");
    }
    if spells(en, "weekly") {
        return Some("每周");
    }
    if spells(en, "weekly (Opus)") {
        return Some("每周（Opus）");
    }
    if spells(en, "weekly (Sonnet)") {
        return Some("每周（Sonnet）");
    }
    if spells(en, "whatever the system") {
        return Some("无论系统设置如何");
    }
    if spells(en, "Window") {
        return Some("窗口");
    }
    if spells(en, "Working") {
        return Some("工作中");
    }
    if spells(en, "Working tree") {
        return Some("工作区");
    }
    if spells(en, "workspace") {
        return Some("工作区");
    }
    if spells(en, "Workspace name") {
        return Some("工作区名称");
    }
    if spells(en, "Worktree") {
        return Some("工作树");
    }
    if spells(en, "Write") {
        return Some("写入");
    }
    if spells(en, "X-High") {
        return Some("极高");
    }
    if spells(en, "xAI's Grok Build agent (grok CLI).") {
        return Some("xAI 的 Grok Build 智能体（grok CLI）。");
    }
    if spells(en, "You") {
        return Some("本机");
    }
    if spells(en, "You're signed in as {email}. Bring {phrase} from this device into your synced workspace, or start it fresh.") {
        return Some("你已以 {email} 身份登录。将此设备上的 {phrase} 带入同步工作区，或全新开始。");
    }
    if spells(en, "You're signed in as {email}. Zeron can switch to your synced workspace now.") {
        return Some("你已以 {email} 身份登录。Zeron 现在可以切换到你的同步工作区。");
    }
    if spells(en, "Zeron can switch to your synced workspace now.") {
        return Some("Zeron 现在可以切换到你的同步工作区。");
    }
    if spells(en, "Zeron is using a background daemon. Stop it and quit Zeron, then reopen to start the synced workspace. Existing local sessions stay on this device and will not be uploaded.") {
        return Some("Zeron 正在使用后台守护进程。请停止它并退出 Zeron，然后重新打开以启动同步工作区。现有本地会话保留在本设备上，不会上传。");
    }
    if spells(en, "Zeron removed your credentials but could not finish closing the previous synced workspace. Retry before continuing in local mode.") {
        return Some("Zeron 已移除你的凭据，但未能完成关闭之前的同步工作区。在继续本地模式前请重试。");
    }
    if spells(en, "Zeron uses English.") {
        return Some("Zeron 使用英文。");
    }
    if spells(en, "Zeron will remove your credentials, close the synced workspace, and continue in local mode.") {
        return Some("Zeron 将移除你的凭据，关闭同步工作区，并继续以本地模式运行。");
    }
    if spells(en, "Zoom") {
        return Some("缩放");
    }
    None
}

/// The Chinese of an English text, where there is one.
pub open spec fn zh(en: Seq<char>) -> Option<Seq<char>> {
    if zh_signs(en) is Some {
        zh_signs(en)
    } else if zh_a_b(en) is Some {
        zh_a_b(en)
    } else if zh_c(en) is Some {
        zh_c(en)
    } else if zh_d_e(en) is Some {
        zh_d_e(en)
    } else if zh_f_k(en) is Some {
        zh_f_k(en)
    } else if zh_l_m(en) is Some {
        zh_l_m(en)
    } else if zh_n(en) is Some {
        zh_n(en)
    } else if zh_o_q(en) is Some {
        zh_o_q(en)
    } else if zh_r(en) is Some {
        zh_r(en)
    } else if zh_s(en) is Some {
        zh_s(en)
    } else if zh_t(en) is Some {
        zh_t(en)
    } else if zh_u_z(en) is Some {
        zh_u_z(en)
    } else {
        None
    }
}

/// The Chinese of an English text, where there is one.
///
/// Not in the table are twelve texts, which stay in English: those that name the assistant of one
/// vendor, in English or in Chinese. With `…` for the name they are "Add … account", "Authentication
/// failed — sign in to … again.", "Billing error — check your … plan or payment method.", "This
/// organization isn't allowed to use … here.", "The request was rejected as invalid.", the vendor's
/// line about its own coding agent ("… coding agent, driven through the … CLI."), and six that begin
/// with the name: "… error: {other}", "… had a server error — try again.", "… is overloaded right now —
/// try again shortly.", "… returned an unspecified error.", "… usage limit reached — try again after
/// the limit resets." and "… {window} limit reached — the turn was blocked. Try again after it
/// resets."
pub fn lookup_zh(en: &[char]) -> (r: Option<&'static str>)
    ensures
        opt_str(r) == zh(en@),
{
    let found = find_signs(en);
    if found.is_some() {
        return found;
    }
    let found = find_a_b(en);
    if found.is_some() {
        return found;
    }
    let found = find_c(en);
    if found.is_some() {
        return found;
    }
    let found = find_d_e(en);
    if found.is_some() {
        return found;
    }
    let found = find_f_k(en);
    if found.is_some() {
        return found;
    }
    let found = find_l_m(en);
    if found.is_some() {
        return found;
    }
    let found = find_n(en);
    if found.is_some() {
        return found;
    }
    let found = find_o_q(en);
    if found.is_some() {
        return found;
    }
    let found = find_r(en);
    if found.is_some() {
        return found;
    }
    let found = find_s(en);
    if found.is_some() {
        return found;
    }
    let found = find_t(en);
    if found.is_some() {
        return found;
    }
    let found = find_u_z(en);
    if found.is_some() {
        return found;
    }
    None
}

} // verus!
