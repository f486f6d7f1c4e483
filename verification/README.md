# atomic-usb

Attaches USB devices that are plugged into any node of a Kubernetes cluster to KubeVirt virtual
machines.

`src/` is the library. It holds the rules of the project, verified with Verus:

* `identity`: names that stay with a device, whichever node and port it is plugged into.
* `sysfs`, `uevent`: what the kernel says about USB devices.
* `crd`, `kubevirt`, `json`: the Kubernetes objects, as far as the rules read and write them.
* `controller`: exclusive leases of devices, usbredir slots, claim phases and held boots.
* `agent`: what a node publishes, which sessions it runs, and whom it serves.
* `proto`, `digest`: the authenticated handshake between agents.
* `launcher`: the usbredir sockets of the VMs on a node.
* `table`, `text`, `util`, `watch`: what the others are built on.

Theorems about more than one function are public proof functions whose names start with `law_`.

`app/` is the program around the library: the command line, the Kubernetes API, sockets, processes
and files. `tests/` runs the library on concrete values.
