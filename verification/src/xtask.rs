//! The build driver: its command line, the paths it works on, and the commands
//! it runs.

use vstd::prelude::*;
use vstd::string::StringExecFns;

verus! {

/// What the driver is asked to do.
#[derive(Debug, Clone, Copy, PartialEq, Eq, Structural)]
pub enum Action {
    /// Build the kernel.
    Build,
    /// Build the kernel and a disk image of it.
    Image,
    /// Build both and boot the image.
    RunQemu,
}

/// A command line that makes sense.
#[derive(Debug, Clone, Copy, PartialEq, Eq, Structural)]
pub struct Invocation {
    pub action: Action,
    pub release: bool,
}

/// The action that a word names.
pub open spec fn action_of(word: Seq<char>) -> Option<Action> {
    if word == "build"@ {
        Some(Action::Build)
    } else if word == "image"@ {
        Some(Action::Image)
    } else if word == "run-qemu"@ {
        Some(Action::RunQemu)
    } else {
        None
    }
}

/// The arguments behind the first ask for a release build.
pub open spec fn asks_release(args: Seq<String>) -> bool {
    exists|i: int| 1 <= i < args.len() && (#[trigger] args[i])@ == "--release"@
}

fn action_named(word: &String) -> (a: Option<Action>)
    ensures
        a == action_of(word@),
{
    proof {
        reveal_strlit("build");
        reveal_strlit("image");
        reveal_strlit("run-qemu");
    }
    if *word == "build".to_owned() {
        Some(Action::Build)
    } else if *word == "image".to_owned() {
        Some(Action::Image)
    } else if *word == "run-qemu".to_owned() {
        Some(Action::RunQemu)
    } else {
        None
    }
}

/// Read the arguments behind the program name. `None` calls for the usage line.
pub fn parse_args(args: &Vec<String>) -> (r: Option<Invocation>)
    ensures
        match r {
            Some(inv) => {
                &&& args@.len() > 0
                &&& action_of(args@[0]@) == Some(inv.action)
                &&& inv.release == asks_release(args@)
            },
            None => args@.len() == 0 || action_of(args@[0]@) is None,
        },
{
    if args.len() == 0 {
        return None;
    }
    let flag = "--release".to_owned();
    let mut release = false;
    let mut i: usize = 1;
    while i < args.len()
        invariant
            1 <= i <= args@.len(),
            flag@ == "--release"@,
            release == exists|j: int| 1 <= j < i && (#[trigger] args@[j])@ == "--release"@,
        decreases args@.len() - i,
    {
        if args[i] == flag {
            release = true;
            assert(args@[i as int]@ == "--release"@);
        }
        i = i + 1;
    }
    match action_named(&args[0]) {
        Some(action) => Some(Invocation { action, release }),
        None => None,
    }
}

/// Directory of the build profile.
pub open spec fn profile_of(release: bool) -> Seq<char> {
    if release {
        "release"@
    } else {
        "debug"@
    }
}

fn profile(release: bool) -> (p: &'static str)
    ensures
        p@ == profile_of(release),
{
    if release {
        "release"
    } else {
        "debug"
    }
}

/// Path of the kernel, component by component.
pub fn kernel_elf_path(release: bool) -> (path: [&'static str; 4])
    ensures
        path[0]@ == "target"@,
        path[1]@ == "x86_64-unknown-none"@,
        path[2]@ == profile_of(release),
        path[3]@ == "rustycore-kernel"@,
{
    ["target", "x86_64-unknown-none", profile(release), "rustycore-kernel"]
}

/// Path of the disk image, component by component.
pub fn image_path(release: bool) -> (path: [&'static str; 4])
    ensures
        path[0]@ == "target"@,
        path[1]@ == "x86_64-unknown-none"@,
        path[2]@ == profile_of(release),
        path[3]@ == "rustycore-bios.img"@,
{
    ["target", "x86_64-unknown-none", profile(release), "rustycore-bios.img"]
}

/// The texts of some arguments.
pub open spec fn texts(args: Seq<&'static str>) -> Seq<Seq<char>> {
    Seq::new(args.len(), |i: int| args[i]@)
}

/// Arguments of the compiler run.
pub fn cargo_args(release: bool) -> (args: Vec<&'static str>)
    ensures
        texts(args@) == if release {
            seq![
                "build"@,
                "-p"@,
                "rustycore-kernel"@,
                "--target"@,
                "x86_64-unknown-none"@,
                "--release"@,
            ]
        } else {
            seq!["build"@, "-p"@, "rustycore-kernel"@, "--target"@, "x86_64-unknown-none"@]
        },
{
    let mut args: Vec<&'static str> = Vec::new();
    args.push("build");
    args.push("-p");
    args.push("rustycore-kernel");
    args.push("--target");
    args.push("x86_64-unknown-none");
    if release {
        args.push("--release");
        assert(texts(args@) =~= seq![
            "build"@,
            "-p"@,
            "rustycore-kernel"@,
            "--target"@,
            "x86_64-unknown-none"@,
            "--release"@,
        ]);
    } else {
        assert(texts(args@) =~= seq![
            "build"@,
            "-p"@,
            "rustycore-kernel"@,
            "--target"@,
            "x86_64-unknown-none"@,
        ]);
    }
    args
}

/// The drive argument of the emulator for an image.
fn drive_arg(image: &str) -> (arg: String)
    ensures
        arg@ == "format=raw,file="@ + image@,
{
    let arg = "format=raw,file=".to_owned();
    arg.concat(image)
}

/// The texts of the emulator's arguments for an image.
pub open spec fn qemu_texts(image: Seq<char>) -> Seq<Seq<char>> {
    seq![
        "-machine"@,
        "q35"@,
        "-cpu"@,
        "max"@,
        "-m"@,
        "512M"@,
        "-smp"@,
        "2"@,
        "-nographic"@,
        "-display"@,
        "none"@,
        "-drive"@,
        "format=raw,file="@ + image,
        "-no-reboot"@,
        "-no-shutdown"@,
    ]
}

/// Arguments of the emulator for an image.
pub fn qemu_args(image: &str) -> (args: Vec<String>)
    ensures
        args@.len() == 15,
        args@[0]@ == "-machine"@,
        args@[1]@ == "q35"@,
        args@[2]@ == "-cpu"@,
        args@[3]@ == "max"@,
        args@[4]@ == "-m"@,
        args@[5]@ == "512M"@,
        args@[6]@ == "-smp"@,
        args@[7]@ == "2"@,
        args@[8]@ == "-nographic"@,
        args@[9]@ == "-display"@,
        args@[10]@ == "none"@,
        args@[11]@ == "-drive"@,
        args@[12]@ == "format=raw,file="@ + image@,
        args@[13]@ == "-no-reboot"@,
        args@[14]@ == "-no-shutdown"@,
        forall|i: int| 0 <= i < 15 ==> (#[trigger] args@[i])@ == qemu_texts(image@)[i],
{
    let mut args: Vec<String> = Vec::new();
    args.push("-machine".to_owned());
    args.push("q35".to_owned());
    args.push("-cpu".to_owned());
    args.push("max".to_owned());
    args.push("-m".to_owned());
    args.push("512M".to_owned());
    args.push("-smp".to_owned());
    args.push("2".to_owned());
    args.push("-nographic".to_owned());
    args.push("-display".to_owned());
    args.push("none".to_owned());
    args.push("-drive".to_owned());
    args.push(drive_arg(image));
    args.push("-no-reboot".to_owned());
    args.push("-no-shutdown".to_owned());
    args
}

/// `args` set `option` to `value`: the option is among them, and wherever it stands
/// the value follows.
pub open spec fn sets_option(args: Seq<String>, option: Seq<char>, value: Seq<char>) -> bool {
    &&& exists|i: int| 0 <= i < args.len() && (#[trigger] args[i])@ == option
    &&& forall|i: int|
        0 <= i < args.len() && (#[trigger] args[i])@ == option ==> i + 1 < args.len() && args[i
            + 1]@ == value
}

/// `args` hold `flag`.
pub open spec fn has_flag(args: Seq<String>, flag: Seq<char>) -> bool {
    exists|i: int| 0 <= i < args.len() && (#[trigger] args[i])@ == flag
}

proof fn lemma_option_words(image: Seq<char>)
    ensures
        "-machine"@ == seq!['-', 'm', 'a', 'c', 'h', 'i', 'n', 'e'],
        "q35"@ == seq!['q', '3', '5'],
        "-cpu"@ == seq!['-', 'c', 'p', 'u'],
        "max"@ == seq!['m', 'a', 'x'],
        "-m"@ == seq!['-', 'm'],
        "512M"@ == seq!['5', '1', '2', 'M'],
        "-smp"@ == seq!['-', 's', 'm', 'p'],
        "2"@ == seq!['2'],
        "-nographic"@.len() == 10,
        "-display"@ == seq!['-', 'd', 'i', 's', 'p', 'l', 'a', 'y'],
        "none"@ == seq!['n', 'o', 'n', 'e'],
        "-drive"@ == seq!['-', 'd', 'r', 'i', 'v', 'e'],
        ("format=raw,file="@ + image).len() >= 16,
        ("format=raw,file="@ + image)[0] == 'f',
        "-no-reboot"@.len() == 10,
        "-no-shutdown"@.len() == 12,
        "-serial"@ == seq!['-', 's', 'e', 'r', 'i', 'a', 'l'],
{
    reveal_strlit("-machine");
    reveal_strlit("q35");
    reveal_strlit("-cpu");
    reveal_strlit("max");
    reveal_strlit("-m");
    reveal_strlit("512M");
    reveal_strlit("-smp");
    reveal_strlit("2");
    reveal_strlit("-nographic");
    reveal_strlit("-display");
    reveal_strlit("none");
    reveal_strlit("-drive");
    reveal_strlit("format=raw,file=");
    reveal_strlit("-no-reboot");
    reveal_strlit("-no-shutdown");
    reveal_strlit("-serial");
}

/// Law: the machine that the kernel boots on. Whatever the image, the emulator is
/// given a q35 board, a processor with everything it can offer (the kernel is built
/// for more than the plain model has), 512 MiB, two processors, and the image as a
/// raw drive; the console is the terminal, so no serial line is asked for on top;
/// and a crash neither reboots nor closes it.
pub proof fn law_machine_of_the_kernel(image: &str, args: Vec<String>)
    requires
        call_ensures(qemu_args, (image,), args),
    ensures
        sets_option(args@, "-machine"@, "q35"@),
        sets_option(args@, "-cpu"@, "max"@),
        sets_option(args@, "-m"@, "512M"@),
        sets_option(args@, "-smp"@, "2"@),
        sets_option(args@, "-display"@, "none"@),
        sets_option(args@, "-drive"@, "format=raw,file="@ + image@),
        has_flag(args@, "-nographic"@),
        has_flag(args@, "-no-reboot"@),
        has_flag(args@, "-no-shutdown"@),
        !has_flag(args@, "-serial"@),
        args@.len() == 15,
{
    lemma_option_words(image@);
    let machine = "-machine"@;
    let cpu = "-cpu"@;
    let memory = "-m"@;
    let smp = "-smp"@;
    let display = "-display"@;
    let drive = "-drive"@;
    let serial = "-serial"@;
    assert(machine.len() == 8 && display.len() == 8 && machine[1] != display[1]);
    assert(cpu.len() == 4 && smp.len() == 4 && cpu[1] != smp[1]);
    assert("512M"@.len() == 4 && cpu[0] != "512M"@[0] && smp[0] != "512M"@[0]);
    assert("none"@.len() == 4 && cpu[0] != "none"@[0] && smp[0] != "none"@[0]);
    assert("q35"@.len() == 3 && "max"@.len() == 3 && memory.len() == 2 && "2"@.len() == 1);
    assert(drive.len() == 6 && serial.len() == 7);
    assert(args@[0]@ == machine && args@[2]@ == cpu && args@[4]@ == memory && args@[6]@ == smp);
    assert(args@[9]@ == display && args@[11]@ == drive);
    assert forall|i: int| 0 <= i < 15 implies {
        &&& (#[trigger] args@[i])@ == machine <==> i == 0
        &&& args@[i]@ == cpu <==> i == 2
        &&& args@[i]@ == memory <==> i == 4
        &&& args@[i]@ == smp <==> i == 6
        &&& args@[i]@ == display <==> i == 9
        &&& args@[i]@ == drive <==> i == 11
        &&& args@[i]@ != serial
    } by {
        if i == 0 || i == 1 || i == 2 || i == 3 || i == 4 || i == 5 || i == 6 || i == 7 {
        } else if i == 8 || i == 9 || i == 10 || i == 11 || i == 12 || i == 13 || i == 14 {
        }
    }
    assert(args@[8]@ == "-nographic"@);
    assert(args@[13]@ == "-no-reboot"@);
    assert(args@[14]@ == "-no-shutdown"@);
}

/// Law: what is built is what is booted. The compiler builds the package for the
/// target whose directory the kernel is then taken from, under the name of the
/// package and in the profile that was asked for; the disk image lies beside it,
/// and the two profiles never share a file.
pub proof fn law_built_is_booted(
    release: bool,
    args: Vec<&'static str>,
    kernel: [&'static str; 4],
    image: [&'static str; 4],
    other: [&'static str; 4],
)
    requires
        call_ensures(cargo_args, (release,), args),
        call_ensures(kernel_elf_path, (release,), kernel),
        call_ensures(image_path, (release,), image),
        call_ensures(kernel_elf_path, (!release,), other),
    ensures
        args@.len() == if release {
            6int
        } else {
            5int
        },
        args@[0]@ == "build"@,
        args@[1]@ == "-p"@,
        args@[2]@ == kernel[3]@,
        args@[3]@ == "--target"@,
        args@[4]@ == kernel[1]@,
        release ==> args@[5]@ == "--release"@,
        kernel[0]@ == "target"@,
        kernel[1]@ == "x86_64-unknown-none"@,
        kernel[2]@ == if release {
            "release"@
        } else {
            "debug"@
        },
        kernel[3]@ == "rustycore-kernel"@,
        image[0]@ == kernel[0]@,
        image[1]@ == kernel[1]@,
        image[2]@ == kernel[2]@,
        image[3]@ == "rustycore-bios.img"@,
        image[3]@ != kernel[3]@,
        other[2]@ != kernel[2]@,
{
    reveal_strlit("release");
    reveal_strlit("debug");
    reveal_strlit("rustycore-kernel");
    reveal_strlit("rustycore-bios.img");
    assert("release"@.len() == 7 && "debug"@.len() == 5);
    assert("rustycore-kernel"@.len() == 16 && "rustycore-bios.img"@.len() == 18);
    let words = texts(args@);
    assert(words.len() == if release {
        6int
    } else {
        5int
    });
    assert(words[0] == args@[0]@ && words[1] == args@[1]@ && words[2] == args@[2]@);
    assert(words[3] == args@[3]@ && words[4] == args@[4]@);
    if release {
        assert(words[5] == args@[5]@);
    }
}

/// Law: three words are understood, as the first argument and nowhere else; a
/// release build is asked for anywhere behind it. Everything else calls for the
/// usage line.
pub proof fn law_command_line(args: Vec<String>, r: Option<Invocation>)
    requires
        call_ensures(parse_args, (&args,), r),
    ensures
        r is None <==> args@.len() == 0 || !(args@[0]@ == "build"@ || args@[0]@ == "image"@
            || args@[0]@ == "run-qemu"@),
        r matches Some(inv) ==> {
            &&& inv.action == Action::Build <==> args@[0]@ == "build"@
            &&& inv.action == Action::Image <==> args@[0]@ == "image"@
            &&& inv.action == Action::RunQemu <==> args@[0]@ == "run-qemu"@
            &&& inv.release <==> exists|i: int|
                1 <= i < args@.len() && (#[trigger] args@[i])@ == "--release"@
        },
{
    reveal_strlit("build");
    reveal_strlit("image");
    reveal_strlit("run-qemu");
    assert("build"@[0] != "image"@[0]);
}

} // verus!
