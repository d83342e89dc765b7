# dshd

DSH Desktop: a desktop launcher, background service and update prompt for
DeepSeek Harness. It installs each harness version from npm into a directory
of its own, starts the newest one as a local `dsh web` host, opens its UI in a
native window, keeps the host running when the window closes, and offers
updates without ever applying one on its own.

## Layout

- `src/` is the library, verified with Verus. It holds every decision the app
  makes, each with a contract:
  - `version`: the version order (numeric core, releases above prereleases,
    prerelease identifiers numerically where both are numbers), with its laws;
  - `runtime`: the registry's dist-tags, the installed versions, the bundled
    runtime, which runtime to run, and which old versions to prune;
  - `install`: installing a version as a sequence of steps through a staging
    directory that is promoted only once its entry point is there;
  - `supervisor`: finding the host's loopback URL in its output, and deciding
    when its startup is over;
  - `orphan`: when a host left behind by a killed app is reaped;
  - `node`, `pnpm`, `paths`: which node and pnpm to use, and where things live;
  - `desktop`: the tray menu, exiting, the watchdog, update offers, and the
    order of the startup steps;
  - `calendar`, `text`: the log's UTC timestamps, and the text handling the
    rest is built on.
- `app/` is the program around it: the tray and window, dialogs, processes,
  files, the npm registry and signals. It performs what the library decides
  and hands the outcome back.
- `tests/` runs the library on concrete values.
