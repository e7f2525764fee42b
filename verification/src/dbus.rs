//! Names of the service on the session bus.

use vstd::prelude::*;

verus! {

pub const BUS_NAME: &'static str = "github.nwkyz.Equinox.Daemon1";

pub const OBJECT_PATH: &'static str = "/github/nwkyz/Equinox/Daemon1";

pub const INTERFACE: &'static str = "github.nwkyz.Equinox.Daemon1";

/// The error of a request that names an unknown source.
pub const UNKNOWN_SOURCE: &'static str = "github.nwkyz.Equinox.Daemon1.Error.UnknownSource";

/// The error of a request by an unknown method.
pub const UNKNOWN_METHOD: &'static str = "github.nwkyz.Equinox.Daemon1.Error.UnknownMethod";

/// The interface in introspection format.
pub const INTROSPECTION_XML: &'static str = r#"<node>
  <interface name="github.nwkyz.Equinox.Daemon1">
    <method name="GetStatus">
      <arg type="s" name="wallpaper_source" direction="out"/>
      <arg type="s" name="wallpaper_mode" direction="out"/>
      <arg type="s" name="current_file" direction="out"/>
    </method>
    <method name="GetLastError">
      <arg type="s" name="message" direction="out"/>
    </method>
    <method name="FetchNow">
      <arg type="s" name="source" direction="in"/>
    </method>
    <method name="GetSourceImages">
      <arg type="s" name="source" direction="in"/>
      <arg type="a(sssx)" name="images" direction="out"/>
    </method>
    <method name="SetWallpaperSource">
      <arg type="s" name="source" direction="in"/>
      <arg type="s" name="mode" direction="in"/>
    </method>
    <method name="ApplyWallpaper"/>
    <method name="ApplyLatest">
      <arg type="s" name="source" direction="in"/>
    </method>
    <method name="ApplyRandom">
      <arg type="s" name="source" direction="in"/>
    </method>
    <method name="ApplyFile">
      <arg type="s" name="path" direction="in"/>
    </method>
    <method name="Next"/>
    <method name="Previous"/>
    <method name="GetHistory">
      <arg type="a(ssssx)" name="entries" direction="out"/>
    </method>
    <method name="GetTasks">
      <arg type="a(xsbii)" name="tasks" direction="out"/>
    </method>
    <method name="CancelTask">
      <arg type="x" name="task_id" direction="in"/>
    </method>
    <method name="GetTaskLog">
      <arg type="a(xssbbbsiii)" name="log" direction="out"/>
    </method>
    <method name="GetSchedule">
      <arg type="a(sbxxx)" name="schedule" direction="out"/>
    </method>
    <method name="HistoryRemove">
      <arg type="x" name="index" direction="in"/>
    </method>
    <method name="ClearHistory"/>
    <signal name="WallpaperChanged">
      <arg type="s" name="file"/>
      <arg type="s" name="source"/>
      <arg type="s" name="title"/>
    </signal>
    <signal name="FetchFailed">
      <arg type="s" name="source"/>
      <arg type="s" name="error"/>
    </signal>
    <signal name="ImageAdded">
      <arg type="s" name="source"/>
      <arg type="s" name="path"/>
    </signal>
    <signal name="TasksChanged"/>
    <signal name="TaskLogChanged"/>
  </interface>
</node>"#;

} // verus!
