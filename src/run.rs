use vstd::prelude::*;

use crate::mount::Mount;
use crate::text::cat;
use crate::text::join;
use crate::text::join_strings;
use crate::text::lemma_views_push;
use crate::text::views;

verus! {

/// A device made available to a build step.
#[derive(Debug)]
pub struct Device {
    pub name: String,
    pub options: Option<DeviceOptions>,
}

impl Device {
    pub open spec fn spec_text(&self) -> Seq<char> {
        match self.options {
            Some(o) => self.name@ + ","@ + o.spec_text(),
            None => self.name@,
        }
    }

    pub fn render(&self) -> (r: String)
        ensures
            r@ == self.spec_text(),
    {
        match &self.options {
            Some(o) => {
                let mut r = cat(self.name.as_str(), ",");
                let t = o.render();
                r.append(t.as_str());
                r
            },
            None => self.name.clone(),
        }
    }
}

#[derive(Debug, Default)]
pub struct DeviceOptions {
    pub required: bool,
}

impl DeviceOptions {
    pub open spec fn spec_text(&self) -> Seq<char> {
        if self.required {
            "--device=required"@
        } else {
            "--device="@
        }
    }

    pub fn render(&self) -> (r: String)
        ensures
            r@ == self.spec_text(),
    {
        if self.required {
            String::from_str("--device=required")
        } else {
            String::from_str("--device=")
        }
    }
}

/// Network mode of a build step; the default mode renders with no value.
#[derive(Debug, Clone, Copy, PartialEq, Eq, Structural)]
pub enum Network {
    Default,
    Host,
    Disabled,
}

impl Network {
    pub open spec fn spec_text(&self) -> Seq<char> {
        match self {
            Network::Default => "--network="@,
            Network::Host => "--network=host"@,
            Network::Disabled => "--network=none"@,
        }
    }

    pub fn render(&self) -> (r: String)
        ensures
            r@ == self.spec_text(),
    {
        match self {
            Network::Default => String::from_str("--network="),
            Network::Host => String::from_str("--network=host"),
            Network::Disabled => String::from_str("--network=none"),
        }
    }
}

impl Default for Network {
    fn default() -> (r: Self)
        ensures
            r == Network::Default,
    {
        Network::Default
    }
}

/// Security mode of a build step; the sandbox mode renders with no value.
#[derive(Debug, Clone, Copy, PartialEq, Eq, Structural)]
pub enum Security {
    Insecure,
    Sandbox,
}

impl Security {
    pub open spec fn spec_text(&self) -> Seq<char> {
        match self {
            Security::Insecure => "--security=insecure"@,
            Security::Sandbox => "--security="@,
        }
    }

    pub fn render(&self) -> (r: String)
        ensures
            r@ == self.spec_text(),
    {
        match self {
            Security::Insecure => String::from_str("--security=insecure"),
            Security::Sandbox => String::from_str("--security="),
        }
    }
}

impl Default for Security {
    fn default() -> (r: Self)
        ensures
            r == Security::Sandbox,
    {
        Security::Sandbox
    }
}

/// The texts of a list of mounts.
pub open spec fn mount_texts(m: Seq<Mount>) -> Seq<Seq<char>> {
    m.map_values(|x: Mount| x.spec_text())
}

/// The texts of a list of devices.
pub open spec fn device_texts(d: Seq<Device>) -> Seq<Seq<char>> {
    d.map_values(|x: Device| x.spec_text())
}

/// Options of a `RUN` instruction.
#[derive(Debug, Default)]
pub struct RunOptions {
    pub device: Option<Vec<Device>>,
    pub mount: Option<Vec<Mount>>,
    pub network: Option<Network>,
    pub security: Option<Security>,
}

impl RunOptions {
    pub open spec fn supported(&self) -> bool {
        self.mount is Some ==> forall|i: int|
            0 <= i < self.mount->0@.len() ==> (#[trigger] self.mount->0@[i]).supported()
    }

    /// The space-separated parts: devices, mounts, network, security.
    pub open spec fn spec_args(&self) -> Seq<Seq<char>> {
        (match self.device {
            Some(d) => device_texts(d@),
            None => Seq::empty(),
        }) + (match self.mount {
            Some(m) => mount_texts(m@),
            None => Seq::empty(),
        }) + (match self.network {
            Some(n) => seq![n.spec_text()],
            None => Seq::empty(),
        }) + (match self.security {
            Some(s) => seq![s.spec_text()],
            None => Seq::empty(),
        })
    }

    pub open spec fn spec_text(&self) -> Seq<char> {
        join(self.spec_args(), " "@)
    }

    /// Checks that every mount has a rendering.
    pub fn is_supported(&self) -> (r: bool)
        ensures
            r == self.supported(),
    {
        if let Some(m) = &self.mount {
            let mut i: usize = 0;
            while i < m.len()
                invariant
                    self.mount == Some(*m),
                    i <= m@.len(),
                    forall|j: int| 0 <= j < i ==> (#[trigger] m@[j]).supported(),
                decreases m@.len() - i,
            {
                if !m[i].is_supported() {
                    assert(!self.mount->0@[i as int].supported());
                    return false;
                }
                i = i + 1;
            }
        }
        true
    }

    pub fn render(&self) -> (r: String)
        requires
            self.supported(),
        ensures
            r@ == self.spec_text(),
    {
        let mut args: Vec<String> = Vec::new();
        if let Some(d) = &self.device {
            let mut i: usize = 0;
            while i < d.len()
                invariant
                    i <= d@.len(),
                    views(args@) == device_texts(d@.take(i as int)),
                decreases d@.len() - i,
            {
                let ghost prev = args@;
                let t = d[i].render();
                args.push(t);
                proof {
                    lemma_views_push(prev, t);
                }
                assert(device_texts(d@.take(i as int + 1)) =~= device_texts(d@.take(i as int)).push(
                    d@[i as int].spec_text(),
                ));
                assert(views(args@) =~= device_texts(d@.take(i as int + 1)));
                i = i + 1;
            }
            assert(d@.take(d@.len() as int) =~= d@);
        }
        let ghost before = views(args@);
        if let Some(m) = &self.mount {
            let mut i: usize = 0;
            while i < m.len()
                invariant
                    i <= m@.len(),
                    forall|j: int| 0 <= j < m@.len() ==> (#[trigger] m@[j]).supported(),
                    views(args@) == before + mount_texts(m@.take(i as int)),
                decreases m@.len() - i,
            {
                let ghost prev = args@;
                let t = m[i].render();
                args.push(t);
                proof {
                    lemma_views_push(prev, t);
                }
                assert(mount_texts(m@.take(i as int + 1)) =~= mount_texts(m@.take(i as int)).push(
                    m@[i as int].spec_text(),
                ));
                assert(views(args@) =~= before + mount_texts(m@.take(i as int + 1)));
                i = i + 1;
            }
            assert(m@.take(m@.len() as int) =~= m@);
        }
        if let Some(n) = &self.network {
            args.push(n.render());
        }
        if let Some(s) = &self.security {
            args.push(s.render());
        }
        assert(views(args@) =~= self.spec_args());
        join_strings(&args, " ")
    }
}

} // verus!
