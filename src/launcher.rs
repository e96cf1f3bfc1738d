//! Helpers for pointing a game launcher at the offline-authentication agent.
use vstd::prelude::*;
use vstd::string::*;
use crate::text::{contains, contains_seq};

verus! {

/// Where the agent jar ships, relative to the program.
pub const AGENT_JAR_PATH: &'static str = "resources/binaries/minecraft-offline-agent.jar";

/// The launcher in use and where the game keeps its versions.
#[derive(Debug, Clone)]
pub struct MinecraftConfig {
    pub launcher_type: String,
    pub version_dir: String,
    pub launcher_config_path: Option<String>,
}

/// Builds the JVM argument that loads the agent, and the instructions for
/// each launcher.
pub struct MinecraftLauncher {
    agent_jar_path: String,
}

/// Loads the agent into a running game.
pub struct MinecraftAgentInjector {
    agent_jar_path: String,
}

impl MinecraftAgentInjector {
    /// An injector using the shipped agent jar.
    pub fn new() -> (r: MinecraftAgentInjector)
        ensures
            r.jar_path() == AGENT_JAR_PATH@,
    {
        MinecraftAgentInjector { agent_jar_path: String::from_str(AGENT_JAR_PATH) }
    }

    pub closed spec fn jar_path(&self) -> Seq<char> {
        self.agent_jar_path@
    }

    /// The agent jar's path.
    pub fn agent_jar_path(&self) -> (r: &str)
        ensures
            r@ == self.jar_path(),
    {
        self.agent_jar_path.as_str()
    }
}

/// The JVM argument loading the agent found at `path`.
pub open spec fn agent_argument_for(path: Seq<char>) -> Seq<char> {
    "-javaagent:\""@ + path + "\""@
}

impl MinecraftLauncher {
    /// A launcher helper using the shipped agent jar.
    pub fn new() -> (r: MinecraftLauncher)
        ensures
            r.jar_path() == AGENT_JAR_PATH@,
    {
        MinecraftLauncher { agent_jar_path: String::from_str(AGENT_JAR_PATH) }
    }

    pub closed spec fn jar_path(&self) -> Seq<char> {
        self.agent_jar_path@
    }

    /// The agent jar's path.
    pub fn agent_jar_path(&self) -> (r: &str)
        ensures
            r@ == self.jar_path(),
    {
        self.agent_jar_path.as_str()
    }

    /// The JVM argument for the agent, given the jar's resolved absolute
    /// path, or `None` when the jar is missing.
    pub fn get_agent_argument(&self, resolved: Option<&str>) -> (r: Result<String, String>)
        ensures
            resolved is None ==> (r matches Err(m) && m@ == "Agent JAR 文件不存在，请先编译 Agent"@),
            resolved matches Some(p) ==> (r matches Ok(a) && a@ == agent_argument_for(p@)),
    {
        match resolved {
            None => Err(String::from_str("Agent JAR 文件不存在，请先编译 Agent")),
            Some(p) => {
                let mut a = String::from_str("-javaagent:\"");
                a.append(p);
                a.append("\"");
                Ok(a)
            },
        }
    }

    /// Which launcher a game directory belongs to: PCL when it holds
    /// `PCL.exe` or its path mentions PCL, otherwise HMCL when it holds
    /// `HMCL.jar` or its path mentions HMCL, otherwise unknown. The caller
    /// says whether the two files exist.
    pub fn detect_launcher_type(minecraft_dir: &str, has_pcl_exe: bool, has_hmcl_jar: bool) -> (r:
        Option<String>)
        ensures
            (has_pcl_exe || contains_seq(minecraft_dir@, "PCL"@)) ==> (r matches Some(t) && t@
                == "PCL"@),
            !(has_pcl_exe || contains_seq(minecraft_dir@, "PCL"@)) && (has_hmcl_jar
                || contains_seq(minecraft_dir@, "HMCL"@)) ==> (r matches Some(t) && t@ == "HMCL"@),
            !(has_pcl_exe || contains_seq(minecraft_dir@, "PCL"@)) && !(has_hmcl_jar
                || contains_seq(minecraft_dir@, "HMCL"@)) ==> r is None,
    {
        if has_pcl_exe || contains(minecraft_dir, "PCL") {
            return Some(String::from_str("PCL"));
        }
        if has_hmcl_jar || contains(minecraft_dir, "HMCL") {
            return Some(String::from_str("HMCL"));
        }
        None
    }

    /// The set-up instructions for the configured launcher, embedding the
    /// agent argument; a failure to build the argument is passed on.
    pub fn auto_configure(&self, config: &MinecraftConfig, agent_arg: Result<String, String>) -> (r:
        Result<String, String>)
        ensures
            agent_arg matches Err(e) ==> (r matches Err(x) && x@ == e@),
            agent_arg matches Ok(a) ==> (r matches Ok(text) && text@ == launcher_guide(
                config.launcher_type@,
                a@,
            )),
    {
        let arg = match agent_arg {
            Ok(a) => a,
            Err(e) => return Err(e),
        };
        let kind = config.launcher_type.as_str();
        let (head, tail) = if crate::text::same_text(kind, "PCL") || crate::text::same_text(kind, "PCL2") {
            (PCL_HEAD, PCL_TAIL)
        } else if crate::text::same_text(kind, "HMCL") {
            (HMCL_HEAD, HMCL_TAIL)
        } else if crate::text::same_text(kind, "官方启动器") || crate::text::same_text(kind, "Official") {
            (OFFICIAL_HEAD, OFFICIAL_TAIL)
        } else {
            (MANUAL_HEAD, MANUAL_TAIL)
        };
        let mut text = String::from_str(head);
        text.append(arg.as_str());
        text.append(tail);
        Ok(text)
    }
}

pub const PCL_HEAD: &'static str = "PCL 启动器配置说明：\n\n1. 打开 PCL 启动器\n2. 选择版本：1.21.11\n3. 点击「版本设置」\n4. 找到「游戏 Java 虚拟机参数」或「JVM 参数」\n5. 在参数框中添加以下内容：\n\n";

pub const PCL_TAIL: &'static str = "\n\n6. 点击保存\n7. 重启 Minecraft\n\n配置完成后，开放局域网时会自动关闭正版验证。";

pub const HMCL_HEAD: &'static str = "请手动在 HMCL 启动器中：\n\n1. 选择版本\n2. 点击「编辑版本」\n3. 在「Java 虚拟机参数」中添加：\n\n";

pub const HMCL_TAIL: &'static str = "\n\n4. 保存并重启游戏";

pub const OFFICIAL_HEAD: &'static str = "请手动在官方启动器中：\n\n1. 点击「启动选项」\n2. 选择配置文件\n3. 启用「JVM 参数」\n4. 在 JVM 参数中添加：\n\n";

pub const OFFICIAL_TAIL: &'static str = "\n\n5. 保存并重启游戏";

pub const MANUAL_HEAD: &'static str = "请手动在启动器的 JVM 参数中添加以下内容：\n\n";

pub const MANUAL_TAIL: &'static str = "\n\n添加后重启 Minecraft 即可自动关闭正版验证。";

/// The instructions for launcher `kind`, embedding argument `arg`.
pub open spec fn launcher_guide(kind: Seq<char>, arg: Seq<char>) -> Seq<char> {
    if kind == "PCL"@ || kind == "PCL2"@ {
        PCL_HEAD@ + arg + PCL_TAIL@
    } else if kind == "HMCL"@ {
        HMCL_HEAD@ + arg + HMCL_TAIL@
    } else if kind == "官方启动器"@ || kind == "Official"@ {
        OFFICIAL_HEAD@ + arg + OFFICIAL_TAIL@
    } else {
        MANUAL_HEAD@ + arg + MANUAL_TAIL@
    }
}

} // verus!
