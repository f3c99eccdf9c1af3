use vstd::prelude::*;

verus! {

// The OS pseudo-terminal is a black-box capability: allocate a PTY of a given
// size, spawn a command attached to its subordinate side, read, write and
// resize. The handles below carry the capability; everything Verus knows
// about them is stated on the wrappers in this file.

/// The master side of a PTY: supports resize, reader cloning and writer
/// extraction.
#[verifier::external_body]
pub struct MasterEnd {
    inner: Box<dyn portable_pty::MasterPty + Send>,
}

/// The subordinate side of a PTY: the side the shell is spawned on.
#[verifier::external_body]
pub struct SlaveEnd {
    inner: Box<dyn portable_pty::SlavePty + Send>,
}

/// An independent byte source for a session's output.
#[verifier::external_body]
pub struct ReaderEnd {
    inner: Box<dyn std::io::Read + Send>,
}

/// An independent byte sink feeding a session's input.
#[verifier::external_body]
pub struct WriterEnd {
    inner: Box<dyn std::io::Write + Send>,
}

/// The spawned shell process, owned by whoever waits for its exit.
#[verifier::external_body]
pub struct ChildEnd {
    inner: Box<dyn portable_pty::Child + Send + Sync>,
}

#[verifier::external_type_specification]
#[verifier::external_body]
pub struct ExCommandBuilder(portable_pty::CommandBuilder);

/// The program a command builder will spawn.
pub uninterp spec fn builder_program(c: portable_pty::CommandBuilder) -> Seq<char>;

/// The environment a command builder will hand to the spawned program. A
/// fresh builder starts from the surrounding process environment, which no
/// contract here pins down.
pub uninterp spec fn builder_env(c: portable_pty::CommandBuilder) -> Map<Seq<char>, Seq<char>>;

/// The working directory a command builder will give the spawned program.
pub uninterp spec fn builder_cwd(c: portable_pty::CommandBuilder) -> Option<Seq<char>>;

/// Relies on portable_pty::CommandBuilder::new: argv[0] is the given program
/// and no working directory is set yet.
#[verifier::external_body]
pub(crate) fn new_command(program: &str) -> (c: portable_pty::CommandBuilder)
    ensures
        builder_program(c) == program@,
        builder_cwd(c) is None,
{
    portable_pty::CommandBuilder::new(program)
}

/// Relies on portable_pty::CommandBuilder::env: sets or overwrites one
/// environment variable; the key is stored as given on this platform.
#[verifier::external_body]
pub(crate) fn command_env(c: &mut portable_pty::CommandBuilder, key: &str, value: &str)
    ensures
        builder_env(*final(c)) == builder_env(*old(c)).insert(key@, value@),
        builder_program(*final(c)) == builder_program(*old(c)),
        builder_cwd(*final(c)) == builder_cwd(*old(c)),
{
    c.env(key, value);
}

/// Relies on portable_pty::CommandBuilder::cwd: records the working
/// directory for the spawned program.
#[verifier::external_body]
pub(crate) fn command_cwd(c: &mut portable_pty::CommandBuilder, dir: &str)
    ensures
        builder_cwd(*final(c)) == Some(dir@),
        builder_env(*final(c)) == builder_env(*old(c)),
        builder_program(*final(c)) == builder_program(*old(c)),
{
    c.cwd(dir);
}

/// Relies on portable_pty::native_pty_system and PtySystem::openpty: allocates
/// a connected master/subordinate PTY pair of the given size, or fails.
#[verifier::external_body]
pub(crate) fn open_pty(rows: u16, cols: u16) -> (r: Result<(MasterEnd, SlaveEnd), ()>) {
    let size = portable_pty::PtySize { rows, cols, pixel_width: 0, pixel_height: 0 };
    match portable_pty::native_pty_system().openpty(size) {
        Ok(pair) => Ok((MasterEnd { inner: pair.master }, SlaveEnd { inner: pair.slave })),
        Err(_) => Err(()),
    }
}

/// Relies on portable_pty::SlavePty::spawn_command: spawns the built command
/// attached to the subordinate side, or fails.
#[verifier::external_body]
pub(crate) fn spawn_command(slave: &SlaveEnd, cmd: portable_pty::CommandBuilder) -> (r: Result<
    ChildEnd,
    (),
>) {
    match slave.inner.spawn_command(cmd) {
        Ok(child) => Ok(ChildEnd { inner: child }),
        Err(_) => Err(()),
    }
}

/// Relies on portable_pty::MasterPty::try_clone_reader: an independent byte
/// source for the master's output, or failure.
#[verifier::external_body]
pub(crate) fn clone_reader(master: &MasterEnd) -> (r: Result<ReaderEnd, ()>) {
    match master.inner.try_clone_reader() {
        Ok(reader) => Ok(ReaderEnd { inner: reader }),
        Err(_) => Err(()),
    }
}

/// Relies on portable_pty::MasterPty::take_writer: the byte sink feeding the
/// PTY, extractable once, or failure.
#[verifier::external_body]
pub(crate) fn take_writer(master: &MasterEnd) -> (r: Result<WriterEnd, ()>) {
    match master.inner.take_writer() {
        Ok(writer) => Ok(WriterEnd { inner: writer }),
        Err(_) => Err(()),
    }
}

/// Relies on portable_pty::MasterPty::resize: resizes the PTY to the given
/// dimensions, or fails.
#[verifier::external_body]
pub(crate) fn resize_master(master: &MasterEnd, cols: u16, rows: u16) -> (r: Result<(), ()>) {
    let size = portable_pty::PtySize { rows, cols, pixel_width: 0, pixel_height: 0 };
    match master.inner.resize(size) {
        Ok(()) => Ok(()),
        Err(_) => Err(()),
    }
}

/// Relies on std::io::Write::write_all: attempts to write the whole buffer
/// to the PTY, reporting any underlying failure.
#[verifier::external_body]
pub(crate) fn write_all_bytes(writer: &mut WriterEnd, data: &[u8]) -> (r: Result<(), ()>) {
    match writer.inner.write_all(data) {
        Ok(()) => Ok(()),
        Err(_) => Err(()),
    }
}

/// What one blocking read of the PTY master produced.
pub enum ReadOutcome {
    /// Between 1 and 8192 bytes were read.
    Data(Vec<u8>),
    /// The PTY reported end of stream.
    Eof,
    /// The read failed.
    Failed,
}

/// Relies on std::io::Read::read with an 8 KiB buffer: zero bytes read means
/// end of stream, a positive count hands back exactly the bytes read.
#[verifier::external_body]
pub(crate) fn read_chunk(reader: &mut ReaderEnd) -> (r: ReadOutcome)
    ensures
        r matches ReadOutcome::Data(d) ==> 1 <= d@.len() <= 8192,
{
    let mut buffer = [0u8; 8192];
    match reader.inner.read(&mut buffer) {
        Ok(0) => ReadOutcome::Eof,
        Ok(n) => ReadOutcome::Data(buffer[..n].to_vec()),
        Err(_) => ReadOutcome::Failed,
    }
}

/// Relies on portable_pty::Child::wait: blocks until the spawned process has
/// terminated; the exit status itself is not consulted.
#[verifier::external_body]
pub fn wait_for_exit(child: &mut ChildEnd) {
    let _ = child.inner.wait();
}

/// What a byte sequence reads as once decoded lossily as text; the decoding
/// is a function of the bytes alone.
pub uninterp spec fn lossy_text(bytes: Seq<u8>) -> Seq<char>;

/// Relies on String::from_utf8_lossy: decodes bytes as UTF-8 text with lossy
/// substitution for invalid sequences; empty input decodes to empty text.
#[verifier::external_body]
pub(crate) fn decode_lossy(bytes: &Vec<u8>) -> (r: String)
    ensures
        r@ == lossy_text(bytes@),
        bytes@.len() == 0 ==> r@.len() == 0,
{
    String::from_utf8_lossy(bytes.as_slice()).to_string()
}

} // verus!
