//! Attach configuration and argument hygiene.
//!
//! The helper runs as root and hands values from configuration or the command
//! line to system utilities. Every such value is checked here: no leading dash,
//! no control characters, absolute canonical paths, well-formed UUIDs. A check
//! is described by the complaint it raises; `None` means that the value passes.

use vstd::prelude::*;

use crate::plan::{AttachRequest, AUTO_NBD_DEVICE};
use crate::sysfs::digits_only;
use crate::text::{
    alnum, chars_of, clone_optional, control, hex, join2, join3, quote, same, show, split_text,
    strip_prefix,
};

verus! {

broadcast use vstd::seq::group_seq_axioms;

/// Why an attach configuration cannot be used.
#[derive(Debug)]
pub enum ConfigError {
    /// The file could not be read.
    Read { path: String, source: String },
    /// The file is not a well-formed configuration.
    Parse(String),
    /// A value breaks one of the rules below.
    Invalid(String),
}

/// The rendered form of an error.
pub open spec fn config_error_text(error: ConfigError) -> Seq<char> {
    match error {
        ConfigError::Read { path, source } => "attach config "@ + path@ + ": "@ + source@,
        ConfigError::Parse(message) => "attach config parse error: "@ + message@,
        ConfigError::Invalid(message) => "attach config invalid: "@ + message@,
    }
}

impl ConfigError {
    pub fn to_string(&self) -> (r: String)
        ensures
            r@ == config_error_text(*self),
    {
        match self {
            ConfigError::Read { path, source } => {
                let mut out = join3("attach config ", path.as_str(), ": ");
                out.append(source.as_str());
                out
            },
            ConfigError::Parse(message) => join2("attach config parse error: ", message.as_str()),
            ConfigError::Invalid(message) => join2("attach config invalid: ", message.as_str()),
        }
    }
}

/// Per-volume attach parameters. Every path is absolute; `nbd_device` absent
/// means "allocate a free device".
#[derive(Debug)]
pub struct AttachConfig {
    pub volume_uuid: Option<String>,
    pub nbd_device: Option<String>,
    pub nbd_socket: Option<String>,
    pub device_block_size: Option<u32>,
    pub vg_name: Option<String>,
    pub lv_name: Option<String>,
    pub mountpoint: Option<String>,
    pub fs_uuid: Option<String>,
    pub init_sentinel: bool,
}

impl Default for AttachConfig {
    fn default() -> (r: Self)
        ensures
            r == (AttachConfig {
                volume_uuid: None,
                nbd_device: None,
                nbd_socket: None,
                device_block_size: None,
                vg_name: None,
                lv_name: None,
                mountpoint: None,
                fs_uuid: None,
                init_sentinel: false,
            }),
    {
        AttachConfig {
            volume_uuid: None,
            nbd_device: None,
            nbd_socket: None,
            device_block_size: None,
            vg_name: None,
            lv_name: None,
            mountpoint: None,
            fs_uuid: None,
            init_sentinel: false,
        }
    }
}

impl Clone for AttachConfig {
    fn clone(&self) -> (res: Self)
        ensures
            res == *self,
    {
        AttachConfig {
            volume_uuid: clone_optional(&self.volume_uuid),
            nbd_device: clone_optional(&self.nbd_device),
            nbd_socket: clone_optional(&self.nbd_socket),
            device_block_size: self.device_block_size,
            vg_name: clone_optional(&self.vg_name),
            lv_name: clone_optional(&self.lv_name),
            mountpoint: clone_optional(&self.mountpoint),
            fs_uuid: clone_optional(&self.fs_uuid),
            init_sentinel: self.init_sentinel,
        }
    }
}

/// Command-line overrides applied on top of the configuration.
#[derive(Debug)]
pub struct AttachOverrides {
    pub nbd_device: Option<String>,
    pub nbd_socket: Option<String>,
    pub vg_name: Option<String>,
    pub lv_name: Option<String>,
    pub mountpoint: Option<String>,
    pub volume_uuid: Option<String>,
    pub fs_uuid: Option<String>,
    pub init_sentinel: bool,
}

impl Default for AttachOverrides {
    fn default() -> (r: Self)
        ensures
            r == (AttachOverrides {
                nbd_device: None,
                nbd_socket: None,
                vg_name: None,
                lv_name: None,
                mountpoint: None,
                volume_uuid: None,
                fs_uuid: None,
                init_sentinel: false,
            }),
    {
        AttachOverrides {
            nbd_device: None,
            nbd_socket: None,
            vg_name: None,
            lv_name: None,
            mountpoint: None,
            volume_uuid: None,
            fs_uuid: None,
            init_sentinel: false,
        }
    }
}

impl Clone for AttachOverrides {
    fn clone(&self) -> (res: Self)
        ensures
            res == *self,
    {
        AttachOverrides {
            nbd_device: clone_optional(&self.nbd_device),
            nbd_socket: clone_optional(&self.nbd_socket),
            vg_name: clone_optional(&self.vg_name),
            lv_name: clone_optional(&self.lv_name),
            mountpoint: clone_optional(&self.mountpoint),
            volume_uuid: clone_optional(&self.volume_uuid),
            fs_uuid: clone_optional(&self.fs_uuid),
            init_sentinel: self.init_sentinel,
        }
    }
}

/// `/etc/maki/attach/<volume>.toml`.
pub fn default_path(volume: &str) -> (r: String)
    ensures
        r@ == "/etc/maki/attach/"@ + volume@ + ".toml"@,
{
    join3("/etc/maki/attach/", volume, ".toml")
}

// ---------- the rules ----------

/// The complaint of the first check, or else that of the second.
pub open spec fn first_complaint(
    first: Option<Seq<char>>,
    second: Option<Seq<char>>,
) -> Option<Seq<char>> {
    if first is Some {
        first
    } else {
        second
    }
}

/// A value for a system utility: never empty, never option-like, never
/// containing control characters.
pub open spec fn argument_complaint(name: Seq<char>, value: Seq<char>) -> Option<Seq<char>> {
    if value.len() == 0 {
        Some(name + " is empty"@)
    } else if value[0] == '-' {
        Some(
            name + " "@ + crate::text::quoted(value)
                + " starts with '-' and could be parsed as an option"@,
        )
    } else if exists|i: int| 0 <= i < value.len() && crate::text::is_control(#[trigger] value[i]) {
        Some(name + " contains control characters"@)
    } else {
        None
    }
}

/// A path component that names an entry.
pub open spec fn plain_component(c: Seq<char>) -> bool {
    c.len() > 0 && c != "."@ && c != ".."@
}

/// Every component after the leading slash names an entry.
pub open spec fn canonical(value: Seq<char>) -> bool {
    let parts = crate::text::split(value, '/');
    forall|i: int| 1 <= i < parts.len() ==> plain_component(#[trigger] parts[i])
}

/// An absolute, canonical path.
pub open spec fn abs_path_complaint(name: Seq<char>, value: Seq<char>) -> Option<Seq<char>> {
    first_complaint(
        argument_complaint(name, value),
        if value[0] != '/' {
            Some(name + " "@ + crate::text::quoted(value) + " must be an absolute path"@)
        } else if value == "/"@ {
            None
        } else if value.last() == '/' {
            Some(name + " "@ + crate::text::quoted(value) + " must not end with '/'"@)
        } else if !canonical(value) {
            Some(
                name + " "@ + crate::text::quoted(value)
                    + " is not canonical (empty, '.' or '..' component)"@,
            )
        } else {
            None
        },
    )
}

/// A character of a volume name.
pub open spec fn volume_char(c: char) -> bool {
    crate::text::is_alnum(c) || c == '-' || c == '_'
}

/// A character of an LVM name.
pub open spec fn lvm_char(c: char) -> bool {
    crate::text::is_alnum(c) || c == '.' || c == '_' || c == '-' || c == '+'
}

/// Volume names: letters, digits, `-` and `_`.
pub open spec fn volume_complaint(value: Seq<char>) -> Option<Seq<char>> {
    first_complaint(
        argument_complaint("volume"@, value),
        if forall|i: int| 0 <= i < value.len() ==> volume_char(#[trigger] value[i]) {
            None
        } else {
            Some("volume name "@ + crate::text::quoted(value) + " must be [A-Za-z0-9_-]"@)
        },
    )
}

/// LVM VG and LV names: letters, digits, `.`, `_`, `-`, `+`; no path
/// separators and no relative components.
pub open spec fn lvm_complaint(name: Seq<char>, value: Seq<char>) -> Option<Seq<char>> {
    first_complaint(
        argument_complaint(name, value),
        if (forall|i: int| 0 <= i < value.len() ==> lvm_char(#[trigger] value[i])) && value != "."@
            && value != ".."@ {
            None
        } else {
            Some(name + " "@ + crate::text::quoted(value) + " is not a valid LVM name"@)
        },
    )
}

/// `part` is made of `len` hexadecimal digits.
pub open spec fn hex_run(part: Seq<char>, len: int) -> bool {
    part.len() == len && forall|i: int|
        0 <= i < part.len() ==> crate::text::is_hex(#[trigger] part[i])
}

/// The hyphenated form 8-4-4-4-12.
pub open spec fn uuid_shape(value: Seq<char>) -> bool {
    let parts = crate::text::split(value, '-');
    &&& parts.len() == 5
    &&& hex_run(parts[0], 8)
    &&& hex_run(parts[1], 4)
    &&& hex_run(parts[2], 4)
    &&& hex_run(parts[3], 4)
    &&& hex_run(parts[4], 12)
}

/// A hyphenated hexadecimal UUID of either case.
pub open spec fn uuid_complaint(name: Seq<char>, value: Seq<char>) -> Option<Seq<char>> {
    first_complaint(
        argument_complaint(name, value),
        if uuid_shape(value) {
            None
        } else {
            Some(name + " "@ + crate::text::quoted(value) + " is not a hyphenated UUID"@)
        },
    )
}

/// The outcome of a check that raises the given complaint.
pub open spec fn answers(r: Result<(), ConfigError>, complaint: Option<Seq<char>>) -> bool {
    match r {
        Ok(()) => complaint is None,
        Err(ConfigError::Invalid(message)) => complaint == Some(message@),
        Err(_) => false,
    }
}

/// `name value<rest>` with the value quoted.
fn about(name: &str, value: &str, rest: &str) -> (r: String)
    ensures
        r@ == name@ + " "@ + crate::text::quoted(value@) + rest@,
{
    let mut out = join3(name, " ", quote(value).as_str());
    out.append(rest);
    out
}

pub fn check_argument(name: &str, value: &str) -> (r: Result<(), ConfigError>)
    ensures
        answers(r, argument_complaint(name@, value@)),
{
    let cs = chars_of(value);
    if cs.len() == 0 {
        return Err(ConfigError::Invalid(join2(name, " is empty")));
    }
    if cs[0] == '-' {
        return Err(
            ConfigError::Invalid(
                about(name, value, " starts with '-' and could be parsed as an option"),
            ),
        );
    }
    let mut i: usize = 0;
    while i < cs.len()
        invariant
            i <= cs.len(),
            cs@ == value@,
            cs.len() > 0,
            cs@[0] != '-',
            forall|k: int| 0 <= k < i ==> !crate::text::is_control(#[trigger] value@[k]),
        decreases cs.len() - i,
    {
        if control(cs[i]) {
            assert(crate::text::is_control(value@[i as int]));
            return Err(ConfigError::Invalid(join2(name, " contains control characters")));
        }
        i += 1;
    }
    Ok(())
}

pub fn check_abs_path(name: &str, value: &str) -> (r: Result<(), ConfigError>)
    ensures
        answers(r, abs_path_complaint(name@, value@)),
{
    match check_argument(name, value) {
        Ok(()) => {},
        Err(e) => return Err(e),
    }
    let cs = chars_of(value);
    if cs[0] != '/' {
        return Err(ConfigError::Invalid(about(name, value, " must be an absolute path")));
    }
    if same(value, "/") {
        return Ok(());
    }
    if cs[cs.len() - 1] == '/' {
        return Err(ConfigError::Invalid(about(name, value, " must not end with '/'")));
    }
    let parts = split_text(value, '/');
    let ghost pieces = crate::text::split(value@, '/');
    let mut i: usize = 1;
    while i < parts.len()
        invariant
            1 <= i,
            crate::text::texts(parts@) == pieces,
            pieces == crate::text::split(value@, '/'),
            value@.len() > 0,
            argument_complaint(name@, value@) is None,
            value@[0] == '/',
            value@ != "/"@,
            value@.last() != '/',
            forall|k: int| 1 <= k < i && k < pieces.len() ==> plain_component(#[trigger] pieces[k]),
        decreases parts.len() - i,
    {
        assert(pieces[i as int] == parts@[i as int]@);
        if parts[i].is_empty() || same(parts[i], ".") || same(parts[i], "..") {
            assert(!plain_component(pieces[i as int]));
            return Err(
                ConfigError::Invalid(
                    about(name, value, " is not canonical (empty, '.' or '..' component)"),
                ),
            );
        }
        i += 1;
    }
    assert(canonical(value@)) by {
        assert(pieces.len() == parts@.len());
    }
    Ok(())
}

pub fn check_volume_name(value: &str) -> (r: Result<(), ConfigError>)
    ensures
        answers(r, volume_complaint(value@)),
{
    match check_argument("volume", value) {
        Ok(()) => {},
        Err(e) => return Err(e),
    }
    let cs = chars_of(value);
    let mut i: usize = 0;
    while i < cs.len()
        invariant
            i <= cs.len(),
            cs@ == value@,
            argument_complaint("volume"@, value@) is None,
            forall|k: int| 0 <= k < i ==> volume_char(#[trigger] value@[k]),
        decreases cs.len() - i,
    {
        let c = cs[i];
        if !(alnum(c) || c == '-' || c == '_') {
            assert(!volume_char(value@[i as int]));
            return Err(
                ConfigError::Invalid(
                    join3("volume name ", quote(value).as_str(), " must be [A-Za-z0-9_-]"),
                ),
            );
        }
        i += 1;
    }
    Ok(())
}

pub fn check_lvm_name(name: &str, value: &str) -> (r: Result<(), ConfigError>)
    ensures
        answers(r, lvm_complaint(name@, value@)),
{
    match check_argument(name, value) {
        Ok(()) => {},
        Err(e) => return Err(e),
    }
    let cs = chars_of(value);
    let mut fine = true;
    let mut i: usize = 0;
    while i < cs.len()
        invariant
            i <= cs.len(),
            cs@ == value@,
            fine == (forall|k: int| 0 <= k < i ==> lvm_char(#[trigger] value@[k])),
        decreases cs.len() - i,
    {
        let c = cs[i];
        if !(alnum(c) || c == '.' || c == '_' || c == '-' || c == '+') {
            assert(!lvm_char(value@[i as int]));
            fine = false;
        }
        i += 1;
    }
    if !fine || same(value, ".") || same(value, "..") {
        return Err(ConfigError::Invalid(about(name, value, " is not a valid LVM name")));
    }
    Ok(())
}

fn is_hex_run(part: &str, len: usize) -> (r: bool)
    ensures
        r == hex_run(part@, len as int),
{
    let cs = chars_of(part);
    if cs.len() != len {
        return false;
    }
    let mut i: usize = 0;
    while i < cs.len()
        invariant
            i <= cs.len(),
            cs@ == part@,
            forall|k: int| 0 <= k < i ==> crate::text::is_hex(#[trigger] part@[k]),
        decreases cs.len() - i,
    {
        if !hex(cs[i]) {
            assert(!crate::text::is_hex(part@[i as int]));
            return false;
        }
        i += 1;
    }
    true
}

pub fn check_uuid(name: &str, value: &str) -> (r: Result<(), ConfigError>)
    ensures
        answers(r, uuid_complaint(name@, value@)),
{
    match check_argument(name, value) {
        Ok(()) => {},
        Err(e) => return Err(e),
    }
    let parts = split_text(value, '-');
    let ghost pieces = crate::text::split(value@, '-');
    assert(crate::text::texts(parts@).len() == parts@.len());
    assert forall|k: int| 0 <= k < parts@.len() implies pieces[k] == #[trigger] parts@[k]@ by {
        assert(crate::text::texts(parts@)[k] == parts@[k]@);
    }
    let ok = parts.len() == 5 && is_hex_run(parts[0], 8) && is_hex_run(parts[1], 4) && is_hex_run(
        parts[2],
        4,
    ) && is_hex_run(parts[3], 4) && is_hex_run(parts[4], 12);
    if !ok {
        return Err(ConfigError::Invalid(about(name, value, " is not a hyphenated UUID")));
    }
    Ok(())
}

// ---------- resolving a request ----------

/// The override, else the configured value, else the default.
pub open spec fn chosen(
    over: Option<String>,
    configured: Option<String>,
    default: Seq<char>,
) -> Seq<char> {
    match over {
        Some(v) => v@,
        None => match configured {
            Some(v) => v@,
            None => default,
        },
    }
}

fn choose_value(over: Option<String>, configured: Option<String>, default: String) -> (r: String)
    ensures
        r@ == chosen(over, configured, default@),
{
    match over {
        Some(v) => v,
        None => match configured {
            Some(v) => v,
            None => default,
        },
    }
}

/// The override, else the configured value.
pub open spec fn preferred(over: Option<String>, configured: Option<String>) -> Option<String> {
    match over {
        Some(v) => Some(v),
        None => configured,
    }
}

/// `n` is a power of two.
pub open spec fn power_of_two(n: nat) -> bool
    decreases n,
{
    n == 1 || (n > 1 && n % 2 == 0 && power_of_two(n / 2))
}

fn is_power_of_two(n: u32) -> (r: bool)
    ensures
        r == power_of_two(n as nat),
{
    let mut m: u32 = n;
    while m > 1 && m % 2 == 0
        invariant
            power_of_two(n as nat) == power_of_two(m as nat),
        decreases m,
    {
        m = m / 2;
    }
    m == 1
}

/// A device path that names an NBD device by its number.
pub open spec fn numbered(device: Seq<char>) -> bool {
    match crate::text::after_prefix(device, "/dev/nbd"@) {
        Some(number) => number.len() > 0 && crate::text::all_digits(number),
        None => false,
    }
}

fn is_numbered(device: &str) -> (r: bool)
    ensures
        r == numbered(device@),
{
    match strip_prefix(device, "/dev/nbd") {
        Some(number) => number.unicode_len() > 0 && digits_only(number),
        None => false,
    }
}

impl AttachConfig {
    /// The NBD device that is asked for.
    pub open spec fn device(self, overrides: AttachOverrides) -> Seq<char> {
        chosen(overrides.nbd_device, self.nbd_device, AUTO_NBD_DEVICE@)
    }

    /// The NBD socket that is asked for.
    pub open spec fn socket(self, volume: Seq<char>, overrides: AttachOverrides) -> Seq<char> {
        chosen(
            overrides.nbd_socket,
            self.nbd_socket,
            "/run/maki/"@ + volume + "/nbd.sock"@,
        )
    }

    /// The volume group that is asked for.
    pub open spec fn vg(self, volume: Seq<char>, overrides: AttachOverrides) -> Seq<char> {
        chosen(overrides.vg_name, self.vg_name, "vg_maki_"@ + volume)
    }

    /// The logical volume that is asked for.
    pub open spec fn lv(self, overrides: AttachOverrides) -> Seq<char> {
        chosen(overrides.lv_name, self.lv_name, "data"@)
    }

    /// The mountpoint that is asked for.
    pub open spec fn target(self, volume: Seq<char>, overrides: AttachOverrides) -> Seq<char> {
        chosen(overrides.mountpoint, self.mountpoint, "/srv/"@ + volume)
    }

    /// The block size that is asked for.
    pub open spec fn block_size(self) -> u32 {
        match self.device_block_size {
            Some(n) => n,
            None => 4096,
        }
    }

    /// The complaint about the NBD device.
    pub open spec fn device_complaint(self, overrides: AttachOverrides) -> Option<Seq<char>> {
        let device = self.device(overrides);
        if device == AUTO_NBD_DEVICE@ {
            None
        } else {
            first_complaint(
                abs_path_complaint("nbd_device"@, device),
                if numbered(device) {
                    None
                } else {
                    Some(
                        "nbd_device"@ + " "@ + crate::text::quoted(device)
                            + " must be a /dev/nbdN device"@,
                    )
                },
            )
        }
    }

    /// The complaint about the volume UUID.
    pub open spec fn volume_uuid_complaint(
        self,
        overrides: AttachOverrides,
        require_uuid: bool,
    ) -> Option<Seq<char>> {
        match preferred(overrides.volume_uuid, self.volume_uuid) {
            Some(uuid) => uuid_complaint("volume_uuid"@, uuid@),
            None => if require_uuid {
                Some(
                    "volume_uuid is required (attach config or --uuid): the mount identity check cannot run without it"@,
                )
            } else {
                None
            },
        }
    }

    /// The complaint about the filesystem UUID.
    pub open spec fn fs_uuid_complaint(self, overrides: AttachOverrides) -> Option<Seq<char>> {
        match preferred(overrides.fs_uuid, self.fs_uuid) {
            Some(uuid) => uuid_complaint("fs_uuid"@, uuid@),
            None => None,
        }
    }

    /// The first complaint about the resolved request.
    pub open spec fn complaint(
        self,
        volume: Seq<char>,
        overrides: AttachOverrides,
        require_uuid: bool,
    ) -> Option<Seq<char>> {
        first_complaint(
            volume_complaint(volume),
            first_complaint(
                self.device_complaint(overrides),
                first_complaint(
                    abs_path_complaint("nbd_socket"@, self.socket(volume, overrides)),
                    first_complaint(
                        lvm_complaint("vg_name"@, self.vg(volume, overrides)),
                        first_complaint(
                            lvm_complaint("lv_name"@, self.lv(overrides)),
                            first_complaint(
                                abs_path_complaint("mountpoint"@, self.target(volume, overrides)),
                                first_complaint(
                                    if power_of_two(self.block_size() as nat) {
                                        None
                                    } else {
                                        Some(
                                            "device_block_size "@ + crate::text::decimal(
                                                self.block_size() as nat,
                                            ) + " must be a power of two"@,
                                        )
                                    },
                                    first_complaint(
                                        self.volume_uuid_complaint(overrides, require_uuid),
                                        self.fs_uuid_complaint(overrides),
                                    ),
                                ),
                            ),
                        ),
                    ),
                ),
            ),
        )
    }

    /// Resolve configuration and overrides into a validated request. The volume
    /// UUID may be absent only when `require_uuid` is false (plan rendering);
    /// execution always requires it.
    pub fn into_request(
        self,
        volume: &str,
        overrides: AttachOverrides,
        require_uuid: bool,
    ) -> (r: Result<AttachRequest, ConfigError>)
        ensures
            match r {
                Ok(request) => {
                    &&& self.complaint(volume@, overrides, require_uuid) is None
                    &&& request.volume@ == volume@
                    &&& request.nbd_device@ == self.device(overrides)
                    &&& request.nbd_socket@ == self.socket(volume@, overrides)
                    &&& request.vg_name@ == self.vg(volume@, overrides)
                    &&& request.lv_name@ == self.lv(overrides)
                    &&& request.mountpoint@ == self.target(volume@, overrides)
                    &&& request.device_block_size == self.block_size()
                    &&& request.volume_uuid@ == chosen(
                        overrides.volume_uuid,
                        self.volume_uuid,
                        "<unset>"@,
                    )
                    &&& request.fs_uuid == preferred(overrides.fs_uuid, self.fs_uuid)
                    &&& request.init_sentinel == (overrides.init_sentinel || self.init_sentinel)
                },
                Err(ConfigError::Invalid(message)) => self.complaint(
                    volume@,
                    overrides,
                    require_uuid,
                ) == Some(message@),
                Err(_) => false,
            },
    {
        match check_volume_name(volume) {
            Ok(()) => {},
            Err(e) => return Err(e),
        }
        let nbd_device = choose_value(
            overrides.nbd_device,
            self.nbd_device,
            AUTO_NBD_DEVICE.to_owned(),
        );
        if !same(nbd_device.as_str(), AUTO_NBD_DEVICE) {
            match check_abs_path("nbd_device", nbd_device.as_str()) {
                Ok(()) => {},
                Err(e) => return Err(e),
            }
            if !is_numbered(nbd_device.as_str()) {
                return Err(
                    ConfigError::Invalid(
                        about("nbd_device", nbd_device.as_str(), " must be a /dev/nbdN device"),
                    ),
                );
            }
        }
        let nbd_socket = choose_value(
            overrides.nbd_socket,
            self.nbd_socket,
            join3("/run/maki/", volume, "/nbd.sock"),
        );
        match check_abs_path("nbd_socket", nbd_socket.as_str()) {
            Ok(()) => {},
            Err(e) => return Err(e),
        }
        let vg_name = choose_value(overrides.vg_name, self.vg_name, join2("vg_maki_", volume));
        match check_lvm_name("vg_name", vg_name.as_str()) {
            Ok(()) => {},
            Err(e) => return Err(e),
        }
        let lv_name = choose_value(overrides.lv_name, self.lv_name, "data".to_owned());
        match check_lvm_name("lv_name", lv_name.as_str()) {
            Ok(()) => {},
            Err(e) => return Err(e),
        }
        let mountpoint = choose_value(
            overrides.mountpoint,
            self.mountpoint,
            join2("/srv/", volume),
        );
        match check_abs_path("mountpoint", mountpoint.as_str()) {
            Ok(()) => {},
            Err(e) => return Err(e),
        }
        let device_block_size: u32 = match self.device_block_size {
            Some(n) => n,
            None => 4096,
        };
        if !is_power_of_two(device_block_size) {
            return Err(
                ConfigError::Invalid(
                    join3(
                        "device_block_size ",
                        show(device_block_size as u64).as_str(),
                        " must be a power of two",
                    ),
                ),
            );
        }
        let wanted = match overrides.volume_uuid {
            Some(uuid) => Some(uuid),
            None => self.volume_uuid,
        };
        let volume_uuid = match wanted {
            Some(uuid) => {
                match check_uuid("volume_uuid", uuid.as_str()) {
                    Ok(()) => {},
                    Err(e) => return Err(e),
                }
                uuid
            },
            None => {
                if require_uuid {
                    return Err(
                        ConfigError::Invalid(
                            "volume_uuid is required (attach config or --uuid): the mount identity check cannot run without it".to_owned(),
                        ),
                    );
                }
                "<unset>".to_owned()
            },
        };
        let fs_uuid = match overrides.fs_uuid {
            Some(uuid) => Some(uuid),
            None => self.fs_uuid,
        };
        match &fs_uuid {
            Some(uuid) => {
                match check_uuid("fs_uuid", uuid.as_str()) {
                    Ok(()) => {},
                    Err(e) => return Err(e),
                }
            },
            None => {},
        }
        Ok(
            AttachRequest {
                volume: volume.to_owned(),
                nbd_socket,
                nbd_device,
                device_block_size,
                vg_name,
                lv_name,
                mountpoint,
                volume_uuid,
                fs_uuid,
                init_sentinel: overrides.init_sentinel || self.init_sentinel,
            },
        )
    }
}

// ---------- laws ----------

/// A value that a utility cannot mistake for an option or split in two.
pub open spec fn safe_argument(value: Seq<char>) -> bool {
    &&& value.len() > 0
    &&& value[0] != '-'
    &&& forall|i: int| 0 <= i < value.len() ==> !crate::text::is_control(#[trigger] value[i])
}

/// Every value that passes any of the checks is a safe argument.
pub proof fn accepted_values_are_safe(name: Seq<char>, value: Seq<char>)
    ensures
        argument_complaint(name, value) is None <==> safe_argument(value),
        abs_path_complaint(name, value) is None ==> safe_argument(value),
        lvm_complaint(name, value) is None ==> safe_argument(value),
        uuid_complaint(name, value) is None ==> safe_argument(value),
        volume_complaint(value) is None ==> safe_argument(value),
{
    if argument_complaint(name, value) is None {
        assert forall|i: int| 0 <= i < value.len() implies !crate::text::is_control(
            #[trigger] value[i],
        ) by {}
    }
    if argument_complaint("volume"@, value) is None {
        assert forall|i: int| 0 <= i < value.len() implies !crate::text::is_control(
            #[trigger] value[i],
        ) by {}
    }
}

/// Names that pass as LVM names never reach outside a directory: they hold no
/// slash and are neither `.` nor `..`. The same holds of volume names, which
/// hold no dot either.
pub proof fn accepted_names_are_single_components(name: Seq<char>, value: Seq<char>)
    ensures
        lvm_complaint(name, value) is None ==> plain_component(value) && !value.contains('/'),
        volume_complaint(value) is None ==> !value.contains('/') && !value.contains('.'),
{
    if lvm_complaint(name, value) is None {
        assert forall|i: int| 0 <= i < value.len() implies value[i] != '/' by {
            assert(lvm_char(value[i]));
        }
    }
    if volume_complaint(value) is None {
        assert forall|i: int| 0 <= i < value.len() implies value[i] != '/' && value[i] != '.' by {
            assert(volume_char(value[i]));
        }
    }
}

/// Whatever a request is made of, each part of it that reaches a system
/// utility is a safe argument.
pub proof fn resolved_requests_are_safe(
    config: AttachConfig,
    volume: Seq<char>,
    overrides: AttachOverrides,
    require_uuid: bool,
)
    requires
        config.complaint(volume, overrides, require_uuid) is None,
    ensures
        safe_argument(volume),
        safe_argument(config.device(overrides)),
        safe_argument(config.socket(volume, overrides)),
        safe_argument(config.vg(volume, overrides)),
        safe_argument(config.lv(overrides)),
        safe_argument(config.target(volume, overrides)),
        require_uuid ==> safe_argument(
            chosen(overrides.volume_uuid, config.volume_uuid, "<unset>"@),
        ),
{
    accepted_values_are_safe("volume"@, volume);
    accepted_values_are_safe("nbd_device"@, config.device(overrides));
    accepted_values_are_safe("nbd_socket"@, config.socket(volume, overrides));
    accepted_values_are_safe("vg_name"@, config.vg(volume, overrides));
    accepted_values_are_safe("lv_name"@, config.lv(overrides));
    accepted_values_are_safe("mountpoint"@, config.target(volume, overrides));
    accepted_values_are_safe(
        "volume_uuid"@,
        chosen(overrides.volume_uuid, config.volume_uuid, "<unset>"@),
    );
    reveal_strlit("/dev/nbd<auto>");
}

// ---------- what is well-formed passes ----------

/// A volume name passes exactly when it is made of letters, digits, hyphens and
/// underscores and does not begin with a hyphen.
pub proof fn volume_names_pass_by_their_characters(value: Seq<char>)
    ensures
        volume_complaint(value) is None <==> value.len() > 0 && value[0] != '-' && forall|i: int|
            0 <= i < value.len() ==> {
                let c = #[trigger] value[i];
                '0' <= c <= '9' || 'a' <= c <= 'z' || 'A' <= c <= 'Z' || c == '-' || c == '_'
            },
{
    assert forall|c: char| #[trigger] volume_char(c) <==> '0' <= c <= '9' || 'a' <= c <= 'z'
        || 'A' <= c <= 'Z' || c == '-' || c == '_' by {
        crate::text::characters_are_classed_by_range(c);
    }
    if forall|i: int| 0 <= i < value.len() ==> volume_char(#[trigger] value[i]) {
        assert forall|i: int| 0 <= i < value.len() implies !crate::text::is_control(
            #[trigger] value[i],
        ) by {
            assert(volume_char(value[i]));
            crate::text::characters_are_classed_by_range(value[i]);
        }
    }
}

/// An LVM name passes exactly when it is made of letters, digits, dots,
/// underscores, hyphens and plus signs, does not begin with a hyphen, and is
/// neither of the two relative components.
pub proof fn lvm_names_pass_by_their_characters(name: Seq<char>, value: Seq<char>)
    ensures
        lvm_complaint(name, value) is None <==> value.len() > 0 && value[0] != '-' && value != "."@
            && value != ".."@ && forall|i: int|
            0 <= i < value.len() ==> {
                let c = #[trigger] value[i];
                '0' <= c <= '9' || 'a' <= c <= 'z' || 'A' <= c <= 'Z' || c == '.' || c == '_' || c
                    == '-' || c == '+'
            },
{
    assert forall|c: char| #[trigger] lvm_char(c) <==> '0' <= c <= '9' || 'a' <= c <= 'z' || 'A'
        <= c <= 'Z' || c == '.' || c == '_' || c == '-' || c == '+' by {
        crate::text::characters_are_classed_by_range(c);
    }
    if forall|i: int| 0 <= i < value.len() ==> lvm_char(#[trigger] value[i]) {
        assert forall|i: int| 0 <= i < value.len() implies !crate::text::is_control(
            #[trigger] value[i],
        ) by {
            assert(lvm_char(value[i]));
            crate::text::characters_are_classed_by_range(value[i]);
        }
    }
}

/// A UUID is five runs of hexadecimal digits of either case, of eight, four,
/// four, four and twelve, with hyphens between them.
pub proof fn uuids_are_five_hexadecimal_runs(name: Seq<char>, parts: Seq<Seq<char>>)
    requires
        parts.len() == 5,
        parts[0].len() == 8,
        parts[1].len() == 4,
        parts[2].len() == 4,
        parts[3].len() == 4,
        parts[4].len() == 12,
        forall|i: int, k: int|
            0 <= i < 5 && 0 <= k < parts[i].len() ==> {
                let c = #[trigger] parts[i][k];
                '0' <= c <= '9' || 'a' <= c <= 'f' || 'A' <= c <= 'F'
            },
    ensures
        uuid_complaint(name, crate::text::listed(parts, '-')) is None,
{
    let value = crate::text::listed(parts, '-');
    assert forall|i: int, k: int| 0 <= i < 5 && 0 <= k < parts[i].len() implies crate::text::is_hex(
        #[trigger] parts[i][k],
    ) && parts[i][k] != '-' by {
        crate::text::characters_are_classed_by_range(parts[i][k]);
    }
    assert forall|i: int| 0 <= i < parts.len() implies !(#[trigger] parts[i]).contains('-') by {
        if parts[i].contains('-') {
            let k = parts[i].index_of('-');
            assert(parts[i][k] == '-');
        }
    }
    crate::text::lists_are_split_into_their_items(parts, '-');
    assert(value[0] == parts[0][0]);
    lemma_listed_is_plain(parts);
}

proof fn lemma_listed_is_plain(parts: Seq<Seq<char>>)
    requires
        forall|i: int, k: int|
            0 <= i < parts.len() && 0 <= k < parts[i].len() ==> {
                let c = #[trigger] parts[i][k];
                '0' <= c <= '9' || 'a' <= c <= 'f' || 'A' <= c <= 'F'
            },
    ensures
        forall|k: int|
            0 <= k < crate::text::listed(parts, '-').len() ==> !crate::text::is_control(
                #[trigger] crate::text::listed(parts, '-')[k],
            ),
    decreases parts.len(),
{
    let s = crate::text::listed(parts, '-');
    if parts.len() > 1 {
        let rest = parts.drop_first();
        assert forall|i: int, k: int| 0 <= i < rest.len() && 0 <= k < rest[i].len() implies {
            let c = #[trigger] rest[i][k];
            '0' <= c <= '9' || 'a' <= c <= 'f' || 'A' <= c <= 'F'
        } by {
            assert(rest[i][k] == parts[i + 1][k]);
        }
        lemma_listed_is_plain(rest);
        let tail = crate::text::listed(rest, '-');
        assert forall|k: int| 0 <= k < s.len() implies !crate::text::is_control(#[trigger] s[k]) by {
            if k < parts[0].len() {
                assert(s[k] == parts[0][k]);
                crate::text::characters_are_classed_by_range(s[k]);
            } else if k == parts[0].len() {
                crate::text::characters_are_classed_by_range('-');
            } else {
                assert(s[k] == tail[k - parts[0].len() - 1]);
            }
        }
    } else if parts.len() == 1 {
        assert forall|k: int| 0 <= k < s.len() implies !crate::text::is_control(#[trigger] s[k]) by {
            assert(s[k] == parts[0][k]);
            crate::text::characters_are_classed_by_range(s[k]);
        }
    }
}

/// What passes as a UUID has the shape of one.
pub proof fn nothing_else_is_a_uuid(name: Seq<char>, value: Seq<char>)
    requires
        uuid_complaint(name, value) is None,
    ensures
        ({
            let parts = crate::text::split(value, '-');
            &&& parts.len() == 5
            &&& parts[0].len() == 8
            &&& parts[1].len() == 4
            &&& parts[2].len() == 4
            &&& parts[3].len() == 4
            &&& parts[4].len() == 12
        }),
{
}

/// A component of a canonical path.
pub open spec fn path_part(part: Seq<char>) -> bool {
    &&& part.len() > 0
    &&& part != "."@
    &&& part != ".."@
    &&& !part.contains('/')
}

/// A path of components passes if it holds no control character; so does the
/// root.
pub proof fn canonical_paths_pass(name: Seq<char>, parts: Seq<Seq<char>>)
    requires
        parts.len() > 0,
        forall|i: int| 0 <= i < parts.len() ==> path_part(#[trigger] parts[i]),
        forall|k: int|
            0 <= k < crate::text::listed(parts, '/').len() ==> !crate::text::is_control(
                #[trigger] crate::text::listed(parts, '/')[k],
            ),
    ensures
        abs_path_complaint(name, "/"@ + crate::text::listed(parts, '/')) is None,
        abs_path_complaint(name, "/"@) is None,
{
    reveal_strlit("/");
    assert("/"@ =~= seq!['/']);
    let tail = crate::text::listed(parts, '/');
    let value = "/"@ + tail;
    let pieces = seq![Seq::<char>::empty()] + parts;
    assert(pieces.drop_first() =~= parts);
    assert(crate::text::listed(pieces, '/') =~= value) by {
        assert(pieces[0] + seq!['/'] =~= "/"@);
    }
    assert forall|i: int| 0 <= i < pieces.len() implies !(#[trigger] pieces[i]).contains('/') by {
        if i > 0 {
            assert(pieces[i] == parts[i - 1]);
            assert(path_part(parts[i - 1]));
        }
    }
    crate::text::lists_are_split_into_their_items(pieces, '/');
    assert(canonical(value)) by {
        assert forall|i: int| 1 <= i < pieces.len() implies plain_component(
            #[trigger] pieces[i],
        ) by {
            assert(pieces[i] == parts[i - 1]);
            assert(path_part(parts[i - 1]));
        }
    }
    crate::text::characters_are_classed_by_range('/');
    assert forall|k: int| 0 <= k < value.len() implies !crate::text::is_control(
        #[trigger] value[k],
    ) by {
        if k > 0 {
            assert(value[k] == tail[k - 1]);
        }
    }
    assert("/"@[0] == '/');
    lemma_list_ends(parts);
    assert(tail.len() > 0 && value.last() == tail.last());
}

proof fn lemma_list_ends(parts: Seq<Seq<char>>)
    requires
        parts.len() > 0,
        forall|i: int| 0 <= i < parts.len() ==> path_part(#[trigger] parts[i]),
    ensures
        crate::text::listed(parts, '/').len() > 0,
        crate::text::listed(parts, '/').last() != '/',
    decreases parts.len(),
{
    assert(path_part(parts[0]));
    if parts.len() == 1 {
        let last = parts[0][parts[0].len() - 1];
        assert(parts[0].contains(last));
    } else {
        let rest = parts.drop_first();
        assert forall|i: int| 0 <= i < rest.len() implies path_part(#[trigger] rest[i]) by {
            assert(rest[i] == parts[i + 1]);
        }
        lemma_list_ends(rest);
        assert(crate::text::listed(parts, '/').last() == crate::text::listed(rest, '/').last());
    }
}

/// A request is resolved exactly when every part of it passes.
pub proof fn requests_are_resolved_when_every_part_passes(
    config: AttachConfig,
    volume: Seq<char>,
    overrides: AttachOverrides,
    require_uuid: bool,
)
    ensures
        config.complaint(volume, overrides, require_uuid) is None <==> {
            &&& volume_complaint(volume) is None
            &&& config.device(overrides) == "/dev/nbd<auto>"@ || (abs_path_complaint(
                "nbd_device"@,
                config.device(overrides),
            ) is None && numbered(config.device(overrides)))
            &&& abs_path_complaint("nbd_socket"@, config.socket(volume, overrides)) is None
            &&& lvm_complaint("vg_name"@, config.vg(volume, overrides)) is None
            &&& lvm_complaint("lv_name"@, config.lv(overrides)) is None
            &&& abs_path_complaint("mountpoint"@, config.target(volume, overrides)) is None
            &&& power_of_two(config.block_size() as nat)
            &&& match preferred(overrides.volume_uuid, config.volume_uuid) {
                Some(uuid) => uuid_complaint("volume_uuid"@, uuid@) is None,
                None => !require_uuid,
            }
            &&& match preferred(overrides.fs_uuid, config.fs_uuid) {
                Some(uuid) => uuid_complaint("fs_uuid"@, uuid@) is None,
                None => true,
            }
        },
{
}

/// What is neither overridden nor configured comes from the volume's name, and
/// what is overridden is what counts.
pub proof fn defaults_come_from_the_volume_and_overrides_win(
    config: AttachConfig,
    volume: Seq<char>,
    overrides: AttachOverrides,
)
    ensures
        overrides.nbd_device is None && config.nbd_device is None ==> config.device(overrides)
            == "/dev/nbd<auto>"@,
        overrides.nbd_socket is None && config.nbd_socket is None ==> config.socket(
            volume,
            overrides,
        ) == "/run/maki/"@ + volume + "/nbd.sock"@,
        overrides.vg_name is None && config.vg_name is None ==> config.vg(volume, overrides)
            == "vg_maki_"@ + volume,
        overrides.lv_name is None && config.lv_name is None ==> config.lv(overrides) == "data"@,
        overrides.mountpoint is None && config.mountpoint is None ==> config.target(
            volume,
            overrides,
        ) == "/srv/"@ + volume,
        config.device_block_size is None ==> config.block_size() == 4096,
        overrides.nbd_device matches Some(v) ==> config.device(overrides) == v@,
        overrides.nbd_socket matches Some(v) ==> config.socket(volume, overrides) == v@,
        overrides.vg_name matches Some(v) ==> config.vg(volume, overrides) == v@,
        overrides.lv_name matches Some(v) ==> config.lv(overrides) == v@,
        overrides.mountpoint matches Some(v) ==> config.target(volume, overrides) == v@,
        overrides.nbd_device is None && config.nbd_device is Some ==> config.device(overrides)
            == config.nbd_device->Some_0@,
        overrides.nbd_socket is None && config.nbd_socket is Some ==> config.socket(
            volume,
            overrides,
        ) == config.nbd_socket->Some_0@,
        overrides.vg_name is None && config.vg_name is Some ==> config.vg(volume, overrides)
            == config.vg_name->Some_0@,
        overrides.lv_name is None && config.lv_name is Some ==> config.lv(overrides)
            == config.lv_name->Some_0@,
        overrides.mountpoint is None && config.mountpoint is Some ==> config.target(
            volume,
            overrides,
        ) == config.mountpoint->Some_0@,
        config.device_block_size matches Some(n) ==> config.block_size() == n,
{
}

/// Doubling a power of two gives the next one, and nothing else is one.
pub proof fn powers_of_two_come_by_doubling(n: nat)
    ensures
        power_of_two(1),
        n > 0 ==> power_of_two(2 * n) == power_of_two(n),
        n > 0 ==> !power_of_two(2 * n + 1),
        !power_of_two(0),
{
}

/// Every numbered NBD device is named by its number.
pub proof fn numbered_devices_are_named_by_their_number(n: nat)
    ensures
        numbered("/dev/nbd"@ + crate::text::decimal(n)),
{
    crate::text::numerals_are_read_up_to_a_limit(n, n);
    crate::text::prefixes_come_off("/dev/nbd"@, crate::text::decimal(n));
}

/// A volume UUID may be missing only where none is required; one that is given
/// must be a UUID either way, and so must a filesystem UUID.
pub proof fn missing_uuids_are_refused_where_required(
    config: AttachConfig,
    overrides: AttachOverrides,
    require_uuid: bool,
)
    ensures
        overrides.volume_uuid is None && config.volume_uuid is None ==> (
        config.volume_uuid_complaint(overrides, require_uuid) is Some <==> require_uuid),
        overrides.volume_uuid matches Some(uuid) ==> (config.volume_uuid_complaint(
            overrides,
            require_uuid,
        ) is None <==> uuid_complaint(
            "volume_uuid"@,
            uuid@,
        ) is None),
        overrides.volume_uuid is None ==> (config.volume_uuid matches Some(uuid) ==> (
        config.volume_uuid_complaint(overrides, require_uuid) is None <==> uuid_complaint(
            "volume_uuid"@,
            uuid@,
        ) is None)),
        overrides.fs_uuid is None && config.fs_uuid is None ==> config.fs_uuid_complaint(overrides)
            is None,
        overrides.fs_uuid matches Some(uuid) ==> (config.fs_uuid_complaint(overrides) is None
            <==> uuid_complaint("fs_uuid"@, uuid@) is None),
        overrides.fs_uuid is None ==> (config.fs_uuid matches Some(uuid) ==> (
        config.fs_uuid_complaint(overrides) is None <==> uuid_complaint("fs_uuid"@, uuid@) is None)),
{
}

/// A value is accepted exactly without a complaint, and refused with its very
/// text; of two complaints the first counts.
pub proof fn values_are_refused_by_their_complaint(
    r: Result<(), ConfigError>,
    complaint: Option<Seq<char>>,
    second: Option<Seq<char>>,
    text: String,
    path: String,
)
    ensures
        answers(r, complaint) ==> (r is Ok <==> complaint is None),
        answers(r, complaint) ==> (r matches Err(e) ==> (e matches ConfigError::Invalid(m)
            && complaint == Some(m@))),
        complaint is None ==> answers(Ok(()), complaint),
        complaint is Some ==> first_complaint(complaint, second) == complaint,
        complaint is None ==> first_complaint(complaint, second) == second,
        config_error_text(ConfigError::Invalid(text)) == "attach config invalid: "@ + text@,
        config_error_text(ConfigError::Parse(text)) == "attach config parse error: "@ + text@,
        config_error_text(ConfigError::Read { path, source: text }) == "attach config "@ + path@
            + ": "@ + text@,
{
}

} // verus!
