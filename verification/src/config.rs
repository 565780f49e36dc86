//! Settings: their defaults, and how the layers (configuration file,
//! environment, command line) override them.
use vstd::prelude::*;

verus! {

/// Where yanked text goes.
#[derive(Clone, Copy, Debug, PartialEq, Eq, Structural)]
pub enum ClipboardType {
    Os,
    File,
    Command,
}

/// The command-line arguments.
#[derive(Debug)]
pub struct CliArgs {
    /// The mind map file to open
    pub filename: Option<String>,
    /// Custom configuration file path
    pub config: Option<String>,
    /// Print the configuration and exit
    pub debug_config: bool,
    /// Initial depth to expand nodes
    pub initial_depth: Option<usize>,
    /// Show hidden nodes
    pub show_hidden: Option<bool>,
    /// Auto-save mode
    pub auto_save: Option<bool>,
}

/// The application's settings.
#[derive(Clone, Debug)]
pub struct AppConfig {
    pub max_parent_node_width: usize,
    pub max_leaf_node_width: usize,
    pub line_spacing: usize,
    pub symbol1: String,
    pub symbol2: String,
    pub show_hidden: bool,
    pub initial_depth: usize,
    pub center_lock: bool,
    pub focus_lock: bool,
    pub max_undo_steps: usize,
    pub auto_save: bool,
    pub auto_save_interval: usize,
    pub echo_keys: bool,
    pub post_export_command: String,
    pub clipboard: ClipboardType,
    pub clipboard_file: String,
    pub clipboard_in_command: String,
    pub clipboard_out_command: String,
}

/// The abstract value of the settings (strings as character sequences).
pub struct ConfigView {
    pub max_parent_node_width: usize,
    pub max_leaf_node_width: usize,
    pub line_spacing: usize,
    pub symbol1: Seq<char>,
    pub symbol2: Seq<char>,
    pub show_hidden: bool,
    pub initial_depth: usize,
    pub center_lock: bool,
    pub focus_lock: bool,
    pub max_undo_steps: usize,
    pub auto_save: bool,
    pub auto_save_interval: usize,
    pub echo_keys: bool,
    pub post_export_command: Seq<char>,
    pub clipboard: ClipboardType,
    pub clipboard_file: Seq<char>,
    pub clipboard_in_command: Seq<char>,
    pub clipboard_out_command: Seq<char>,
}

impl View for AppConfig {
    type V = ConfigView;

    open spec fn view(&self) -> ConfigView {
        ConfigView {
            max_parent_node_width: self.max_parent_node_width,
            max_leaf_node_width: self.max_leaf_node_width,
            line_spacing: self.line_spacing,
            symbol1: self.symbol1@,
            symbol2: self.symbol2@,
            show_hidden: self.show_hidden,
            initial_depth: self.initial_depth,
            center_lock: self.center_lock,
            focus_lock: self.focus_lock,
            max_undo_steps: self.max_undo_steps,
            auto_save: self.auto_save,
            auto_save_interval: self.auto_save_interval,
            echo_keys: self.echo_keys,
            post_export_command: self.post_export_command@,
            clipboard: self.clipboard,
            clipboard_file: self.clipboard_file@,
            clipboard_in_command: self.clipboard_in_command@,
            clipboard_out_command: self.clipboard_out_command@,
        }
    }
}

/// The default settings.
pub open spec fn default_config_view() -> ConfigView {
    ConfigView {
        max_parent_node_width: 25,
        max_leaf_node_width: 55,
        line_spacing: 1,
        symbol1: seq!['✓'],
        symbol2: seq!['✗'],
        show_hidden: false,
        initial_depth: 1,
        center_lock: false,
        focus_lock: false,
        max_undo_steps: 24,
        auto_save: false,
        auto_save_interval: 30,
        echo_keys: false,
        post_export_command: Seq::empty(),
        clipboard: ClipboardType::Os,
        clipboard_file: seq!['/', 't', 'm', 'p', '/', 'h', '-', 'm', '-', 'm'],
        clipboard_in_command: Seq::empty(),
        clipboard_out_command: Seq::empty(),
    }
}

pub fn default_max_parent_node_width() -> (w: usize)
    ensures
        w == 25,
{
    25
}

pub fn default_max_leaf_node_width() -> (w: usize)
    ensures
        w == 55,
{
    55
}

pub fn default_line_spacing() -> (s: usize)
    ensures
        s == 1,
{
    1
}

pub fn default_symbol1() -> (s: String)
    ensures
        s@ == seq!['✓'],
{
    proof {
        reveal_strlit("✓");
    }
    crate::text::owned("✓")
}

pub fn default_symbol2() -> (s: String)
    ensures
        s@ == seq!['✗'],
{
    proof {
        reveal_strlit("✗");
    }
    crate::text::owned("✗")
}

pub fn default_show_hidden() -> (b: bool)
    ensures
        !b,
{
    false
}

pub fn default_initial_depth() -> (d: usize)
    ensures
        d == 1,
{
    1
}

pub fn default_center_lock() -> (b: bool)
    ensures
        !b,
{
    false
}

pub fn default_focus_lock() -> (b: bool)
    ensures
        !b,
{
    false
}

pub fn default_max_undo_steps() -> (n: usize)
    ensures
        n == 24,
{
    24
}

pub fn default_auto_save() -> (b: bool)
    ensures
        !b,
{
    false
}

/// Thirty seconds.
pub fn default_auto_save_interval() -> (n: usize)
    ensures
        n == 30,
{
    30
}

pub fn default_echo_keys() -> (b: bool)
    ensures
        !b,
{
    false
}

pub fn default_post_export_command() -> (s: String)
    ensures
        s@ == Seq::<char>::empty(),
{
    String::new()
}

pub fn default_clipboard() -> (c: ClipboardType)
    ensures
        c == ClipboardType::Os,
{
    ClipboardType::Os
}

pub fn default_clipboard_file() -> (s: String)
    ensures
        s@ == seq!['/', 't', 'm', 'p', '/', 'h', '-', 'm', '-', 'm'],
{
    proof {
        reveal_strlit("/tmp/h-m-m");
    }
    crate::text::owned("/tmp/h-m-m")
}

impl Default for AppConfig {
    fn default() -> (c: AppConfig)
        ensures
            c@ == default_config_view(),
    {
        AppConfig {
            max_parent_node_width: default_max_parent_node_width(),
            max_leaf_node_width: default_max_leaf_node_width(),
            line_spacing: default_line_spacing(),
            symbol1: default_symbol1(),
            symbol2: default_symbol2(),
            show_hidden: default_show_hidden(),
            initial_depth: default_initial_depth(),
            center_lock: default_center_lock(),
            focus_lock: default_focus_lock(),
            max_undo_steps: default_max_undo_steps(),
            auto_save: default_auto_save(),
            auto_save_interval: default_auto_save_interval(),
            echo_keys: default_echo_keys(),
            post_export_command: default_post_export_command(),
            clipboard: default_clipboard(),
            clipboard_file: default_clipboard_file(),
            clipboard_in_command: String::new(),
            clipboard_out_command: String::new(),
        }
    }
}

/// The settings that one layer (the configuration file, or the environment)
/// gives; `None` leaves a setting as the layers below have it.
#[derive(Debug)]
pub struct ConfigLayer {
    pub max_parent_node_width: Option<usize>,
    pub max_leaf_node_width: Option<usize>,
    pub line_spacing: Option<usize>,
    pub symbol1: Option<String>,
    pub symbol2: Option<String>,
    pub show_hidden: Option<bool>,
    pub initial_depth: Option<usize>,
    pub center_lock: Option<bool>,
    pub focus_lock: Option<bool>,
    pub max_undo_steps: Option<usize>,
    pub auto_save: Option<bool>,
    pub auto_save_interval: Option<usize>,
    pub echo_keys: Option<bool>,
    pub post_export_command: Option<String>,
    pub clipboard: Option<ClipboardType>,
    pub clipboard_file: Option<String>,
    pub clipboard_in_command: Option<String>,
    pub clipboard_out_command: Option<String>,
}

pub open spec fn pick<T>(o: Option<T>, base: T) -> T {
    match o {
        Some(v) => v,
        None => base,
    }
}

pub open spec fn pick_str(o: Option<String>, base: Seq<char>) -> Seq<char> {
    match o {
        Some(v) => v@,
        None => base,
    }
}

/// `base` with the settings of `layer` laid over it.
pub open spec fn layered(base: ConfigView, layer: ConfigLayer) -> ConfigView {
    ConfigView {
        max_parent_node_width: pick(layer.max_parent_node_width, base.max_parent_node_width),
        max_leaf_node_width: pick(layer.max_leaf_node_width, base.max_leaf_node_width),
        line_spacing: pick(layer.line_spacing, base.line_spacing),
        symbol1: pick_str(layer.symbol1, base.symbol1),
        symbol2: pick_str(layer.symbol2, base.symbol2),
        show_hidden: pick(layer.show_hidden, base.show_hidden),
        initial_depth: pick(layer.initial_depth, base.initial_depth),
        center_lock: pick(layer.center_lock, base.center_lock),
        focus_lock: pick(layer.focus_lock, base.focus_lock),
        max_undo_steps: pick(layer.max_undo_steps, base.max_undo_steps),
        auto_save: pick(layer.auto_save, base.auto_save),
        auto_save_interval: pick(layer.auto_save_interval, base.auto_save_interval),
        echo_keys: pick(layer.echo_keys, base.echo_keys),
        post_export_command: pick_str(layer.post_export_command, base.post_export_command),
        clipboard: pick(layer.clipboard, base.clipboard),
        clipboard_file: pick_str(layer.clipboard_file, base.clipboard_file),
        clipboard_in_command: pick_str(layer.clipboard_in_command, base.clipboard_in_command),
        clipboard_out_command: pick_str(layer.clipboard_out_command, base.clipboard_out_command),
    }
}

/// `base` with the settings that the command line sets laid over it.
pub open spec fn with_cli(base: ConfigView, args: CliArgs) -> ConfigView {
    ConfigView {
        initial_depth: pick(args.initial_depth, base.initial_depth),
        show_hidden: pick(args.show_hidden, base.show_hidden),
        auto_save: pick(args.auto_save, base.auto_save),
        ..base
    }
}

fn take_usize(o: Option<usize>, base: usize) -> (r: usize)
    ensures
        r == pick(o, base),
{
    match o {
        Some(v) => v,
        None => base,
    }
}

fn take_bool(o: Option<bool>, base: bool) -> (r: bool)
    ensures
        r == pick(o, base),
{
    match o {
        Some(v) => v,
        None => base,
    }
}

fn take_string(o: Option<String>, base: String) -> (r: String)
    ensures
        r@ == pick_str(o, base@),
{
    match o {
        Some(v) => v,
        None => base,
    }
}

/// Lays `layer` over `base`.
pub fn apply_layer(base: AppConfig, layer: ConfigLayer) -> (c: AppConfig)
    ensures
        c@ == layered(base@, layer),
{
    let ConfigLayer {
        max_parent_node_width,
        max_leaf_node_width,
        line_spacing,
        symbol1,
        symbol2,
        show_hidden,
        initial_depth,
        center_lock,
        focus_lock,
        max_undo_steps,
        auto_save,
        auto_save_interval,
        echo_keys,
        post_export_command,
        clipboard,
        clipboard_file,
        clipboard_in_command,
        clipboard_out_command,
    } = layer;
    let clipboard = match clipboard {
        Some(v) => v,
        None => base.clipboard,
    };
    AppConfig {
        max_parent_node_width: take_usize(max_parent_node_width, base.max_parent_node_width),
        max_leaf_node_width: take_usize(max_leaf_node_width, base.max_leaf_node_width),
        line_spacing: take_usize(line_spacing, base.line_spacing),
        symbol1: take_string(symbol1, base.symbol1),
        symbol2: take_string(symbol2, base.symbol2),
        show_hidden: take_bool(show_hidden, base.show_hidden),
        initial_depth: take_usize(initial_depth, base.initial_depth),
        center_lock: take_bool(center_lock, base.center_lock),
        focus_lock: take_bool(focus_lock, base.focus_lock),
        max_undo_steps: take_usize(max_undo_steps, base.max_undo_steps),
        auto_save: take_bool(auto_save, base.auto_save),
        auto_save_interval: take_usize(auto_save_interval, base.auto_save_interval),
        echo_keys: take_bool(echo_keys, base.echo_keys),
        post_export_command: take_string(post_export_command, base.post_export_command),
        clipboard,
        clipboard_file: take_string(clipboard_file, base.clipboard_file),
        clipboard_in_command: take_string(clipboard_in_command, base.clipboard_in_command),
        clipboard_out_command: take_string(clipboard_out_command, base.clipboard_out_command),
    }
}

/// The settings: the defaults, then the configuration file's layer (when
/// there is a file), then the environment's layer, then the command line's
/// `--initial-depth`, `--show-hidden` and `--auto-save`. Later layers win.
pub fn load_config(args: &CliArgs, file_layer: Option<ConfigLayer>, env_layer: ConfigLayer) -> (c: AppConfig)
    ensures
        c@ == with_cli(
            layered(
                match file_layer {
                    Some(f) => layered(default_config_view(), f),
                    None => default_config_view(),
                },
                env_layer,
            ),
            *args,
        ),
{
    let mut config = AppConfig::default();
    if let Some(f) = file_layer {
        config = apply_layer(config, f);
    }
    config = apply_layer(config, env_layer);
    if let Some(depth) = args.initial_depth {
        config.initial_depth = depth;
    }
    if let Some(show) = args.show_hidden {
        config.show_hidden = show;
    }
    if let Some(auto) = args.auto_save {
        config.auto_save = auto;
    }
    config
}

} // verus!
